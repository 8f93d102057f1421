//! Sorting that keeps what is equal in its order.
use vstd::prelude::*;

pub mod laws;

verus! {

/// The places of `keys` from the smallest key to the greatest, equal keys in their order.
pub open spec fn is_stable_order(keys: Seq<u64>, r: Seq<usize>) -> bool {
    &&& r.len() == keys.len()
    &&& forall|i: int| 0 <= i < r.len() ==> #[trigger] r[i] < keys.len()
    &&& forall|i: int, j: int|
        0 <= i < j < r.len() ==> keys[#[trigger] r[i] as int] < keys[#[trigger] r[j] as int] || (
        keys[r[i] as int] == keys[r[j] as int] && r[i] < r[j])
}

/// The place `p` comes before the place `q`.
pub open spec fn comes_before(keys: Seq<u64>, p: usize, q: usize) -> bool {
    keys[p as int] < keys[q as int] || (keys[p as int] == keys[q as int] && p < q)
}

/// `r` are places from `lo` on and below `hi`, each before those behind it.
pub open spec fn ordered(keys: Seq<u64>, lo: int, hi: int, r: Seq<usize>) -> bool {
    &&& forall|i: int| 0 <= i < r.len() ==> lo <= #[trigger] r[i] < hi
    &&& forall|i: int, j: int|
        0 <= i < j < r.len() ==> comes_before(keys, #[trigger] r[i], #[trigger] r[j])
}

/// The places in `a` and in `b` together; those in `a` are below those in `b`.
fn merge(keys: &[u64], a: &[usize], b: &[usize], lo: usize, mid: usize, hi: usize) -> (r: Vec<usize>)
    requires
        lo <= mid <= hi <= keys@.len(),
        a@.len() == mid - lo,
        b@.len() == hi - mid,
        ordered(keys@, lo as int, mid as int, a@),
        ordered(keys@, mid as int, hi as int, b@),
    ensures
        r@.len() == hi - lo,
        ordered(keys@, lo as int, hi as int, r@),
{
    let n: usize = a.len();
    let m: usize = b.len();
    let mut out: Vec<usize> = Vec::new();
    let mut i: usize = 0;
    let mut j: usize = 0;
    while i < n || j < m
        invariant
            lo <= mid <= hi <= keys@.len(),
            i <= n == a@.len() == mid - lo,
            j <= m == b@.len() == hi - mid,
            ordered(keys@, lo as int, mid as int, a@),
            ordered(keys@, mid as int, hi as int, b@),
            out@.len() == i + j,
            ordered(keys@, lo as int, hi as int, out@),
            forall|p: int, q: int|
                0 <= p < out@.len() && i <= q < n ==> comes_before(
                    keys@,
                    #[trigger] out@[p],
                    #[trigger] a@[q],
                ),
            forall|p: int, q: int|
                0 <= p < out@.len() && j <= q < m ==> comes_before(
                    keys@,
                    #[trigger] out@[p],
                    #[trigger] b@[q],
                ),
        decreases n - i + m - j,
    {
        let left: bool = i < n && (j >= m || keys[a[i]] <= keys[b[j]]);
        let ghost had = out@;
        let x: usize = if left {
            a[i]
        } else {
            b[j]
        };
        out.push(x);
        proof {
            if left {
                assert forall|q: int| j <= q < m implies comes_before(keys@, x, #[trigger] b@[q]) by {
                    assert(a@[i as int] < mid <= b@[q]);
                    if q > j {
                        assert(comes_before(keys@, b@[j as int], b@[q]));
                    }
                }
            } else {
                assert forall|q: int| i <= q < n implies comes_before(keys@, x, #[trigger] a@[q]) by {
                    if q > i {
                        assert(comes_before(keys@, a@[i as int], a@[q]));
                    }
                }
            }
            assert forall|p: int, q: int| 0 <= p < q < out@.len() implies comes_before(
                keys@,
                #[trigger] out@[p],
                #[trigger] out@[q],
            ) by {
                if q == had.len() {
                    assert(out@[p] == had[p]);
                }
            }
        }
        if left {
            i = i + 1;
        } else {
            j = j + 1;
        }
    }
    out
}

/// The places from `lo` on and below `hi`, in order.
fn order_between(keys: &[u64], lo: usize, hi: usize) -> (r: Vec<usize>)
    requires
        lo <= hi <= keys@.len(),
    ensures
        r@.len() == hi - lo,
        ordered(keys@, lo as int, hi as int, r@),
    decreases hi - lo,
{
    if hi - lo <= 1 {
        let mut one: Vec<usize> = Vec::new();
        if lo < hi {
            one.push(lo);
        }
        return one;
    }
    let mid: usize = lo + (hi - lo) / 2;
    let a = order_between(keys, lo, mid);
    let b = order_between(keys, mid, hi);
    merge(keys, a.as_slice(), b.as_slice(), lo, mid, hi)
}

/// The places of `keys` from the smallest key to the greatest, equal keys in their order.
pub fn stable_order(keys: &[u64]) -> (r: Vec<usize>)
    ensures
        is_stable_order(keys@, r@),
{
    let r = order_between(keys, 0, keys.len());
    proof {
        assert forall|i: int, j: int| 0 <= i < j < r@.len() implies keys@[#[trigger] r@[i] as int]
            < keys@[#[trigger] r@[j] as int] || (keys@[r@[i] as int] == keys@[r@[j] as int] && r@[i]
            < r@[j]) by {
            assert(comes_before(keys@, r@[i], r@[j]));
        }
    }
    r
}

/// Every place comes in the order.
pub proof fn lemma_order_covers(keys: Seq<u64>, r: Seq<usize>, j: int)
    requires
        is_stable_order(keys, r),
        0 <= j < keys.len(),
        keys.len() <= usize::MAX,
    ensures
        exists|p: int| 0 <= p < r.len() && r[p] == j as usize,
{
    let all = Seq::new(keys.len(), |i: int| i as usize);
    assert forall|a: int, b: int| 0 <= a < b < r.len() implies r[a] != r[b] by {
        assert(keys[r[a] as int] < keys[r[b] as int] || r[a] < r[b]);
    }
    lemma_full(r, keys.len(), j);
}

/// As many distinct places as there are cover all places.
proof fn lemma_full(r: Seq<usize>, n: nat, j: int)
    requires
        r.len() == n,
        n <= usize::MAX,
        0 <= j < n,
        forall|i: int| 0 <= i < n ==> #[trigger] r[i] < n,
        forall|a: int, b: int| 0 <= a < b < n ==> r[a] != r[b],
    ensures
        exists|p: int| 0 <= p < r.len() && r[p] == j as usize,
{
    let places = Seq::new(n, |i: int| r[i] as int);
    let full = vstd::set_lib::set_int_range(0, n as int);
    vstd::set_lib::lemma_int_range(0, n as int);
    assert(places.no_duplicates()) by {
        assert forall|a: int, b: int| 0 <= a < n && 0 <= b < n && a != b implies places[a]
            != places[b] by {
            if a < b {
                assert(r[a] != r[b]);
            } else {
                assert(r[b] != r[a]);
            }
        }
    }
    places.unique_seq_to_set();
    let got = places.to_set();
    assert(got.subset_of(full)) by {
        assert forall|x: int| got.contains(x) implies full.contains(x) by {
            let i = choose|i: int| 0 <= i < n && places[i] == x;
            assert(r[i] < n);
        }
    }
    vstd::set_lib::lemma_subset_equality(got, full);
    assert(full.contains(j));
    assert(got.contains(j));
    let p = choose|p: int| 0 <= p < n && places[p] == j;
    assert(r[p] == j as usize);
}

/// There is one order.
pub proof fn lemma_order_unique(keys: Seq<u64>, a: Seq<usize>, b: Seq<usize>)
    requires
        is_stable_order(keys, a),
        is_stable_order(keys, b),
        keys.len() <= usize::MAX,
    ensures
        a == b,
{
    assert forall|i: int| 0 <= i < a.len() implies a[i] == b[i] by {
        lemma_order_same(keys, a, b, i);
    }
    assert(a =~= b);
}

/// Two orders agree at a place.
proof fn lemma_order_same(keys: Seq<u64>, a: Seq<usize>, b: Seq<usize>, i: int)
    requires
        is_stable_order(keys, a),
        is_stable_order(keys, b),
        keys.len() <= usize::MAX,
        0 <= i < keys.len(),
    ensures
        a[i] == b[i],
    decreases i,
{
    assert forall|j: int| 0 <= j < i implies a[j] == b[j] by {
        lemma_order_same(keys, a, b, j);
    }
    if a[i] != b[i] {
        lemma_order_covers(keys, a, b[i] as int);
        lemma_order_covers(keys, b, a[i] as int);
        let p = choose|p: int| 0 <= p < a.len() && a[p] == b[i] as int as usize;
        let q = choose|q: int| 0 <= q < b.len() && b[q] == a[i] as int as usize;
        assert(a[p] == b[i] && b[q] == a[i]);
        if p < i {
            assert(b[p] == a[p]);
            assert(comes_before(keys, b[p], b[i]));
        }
        if q < i {
            assert(a[q] == b[q]);
            assert(comes_before(keys, a[q], a[i]));
        }
        assert(comes_before(keys, a[i], a[p]));
        assert(comes_before(keys, b[i], b[q]));
    }
}

/// Sequences that hold the same in some order hold the same in some order when each item is mapped.
pub proof fn lemma_mapped_multiset<A, B>(p: Seq<A>, q: Seq<A>, f: spec_fn(A) -> B)
    requires
        p.to_multiset() == q.to_multiset(),
    ensures
        p.map_values(f).to_multiset() == q.map_values(f).to_multiset(),
    decreases p.len(),
{
    broadcast use vstd::seq_lib::group_to_multiset_ensures;
    broadcast use vstd::multiset::group_multiset_axioms;

    assert(p.len() == p.to_multiset().len() && q.len() == q.to_multiset().len());
    if p.len() == 0 {
        assert(p.map_values(f) =~= q.map_values(f));
    } else {
        let n = p.len() - 1;
        let x = p[n];
        assert(p.contains(x));
        assert(q.to_multiset().count(x) > 0);
        assert(q.contains(x));
        let i = q.index_of(x);
        assert(q[i] == x);
        assert(p.remove(n) =~= p.drop_last());
        lemma_mapped_multiset(p.drop_last(), q.remove(i), f);
        let (fp, fq) = (p.map_values(f), q.map_values(f));
        assert(fp.remove(n) =~= p.drop_last().map_values(f));
        assert(fq.remove(i) =~= q.remove(i).map_values(f));
        assert(fp[n] == f(x) && fq[i] == f(x));
        assert(fp.contains(f(x)) && fq.contains(f(x)));
        assert(fp.to_multiset() =~= fp.remove(n).to_multiset().insert(f(x)));
        assert(fq.to_multiset() =~= fq.remove(i).to_multiset().insert(f(x)));
    }
}

/// The items of `s` at the places `o`.
pub open spec fn picked<A>(s: Seq<A>, o: Seq<int>) -> Seq<A> {
    Seq::new(o.len(), |i: int| s[o[i]])
}

/// Each item picked once is the same in some order.
pub proof fn lemma_picked_multiset<A>(s: Seq<A>, o: Seq<int>)
    requires
        o.len() == s.len(),
        forall|i: int| 0 <= i < o.len() ==> 0 <= #[trigger] o[i] < s.len(),
        forall|i: int, j: int| 0 <= i < j < o.len() ==> o[i] != o[j],
    ensures
        picked(s, o).to_multiset() == s.to_multiset(),
    decreases s.len(),
{
    broadcast use vstd::seq_lib::group_to_multiset_ensures;
    broadcast use vstd::multiset::group_multiset_axioms;

    let n = s.len() - 1;
    if s.len() == 0 {
        assert(picked(s, o) =~= s);
    } else {
        let at = o[n];
        let rest = s.remove(at);
        let down = Seq::new(
            n as nat,
            |i: int|
                if o[i] > at {
                    o[i] - 1
                } else {
                    o[i]
                },
        );
        assert forall|i: int| 0 <= i < n implies 0 <= #[trigger] down[i] < n by {
            assert(o[i] != o[n]);
            assert(0 <= o[i] < s.len());
        }
        assert forall|i: int, j: int| 0 <= i < j < n implies down[i] != down[j] by {
            assert(o[i] != o[j] && o[i] != o[n] && o[j] != o[n]);
        }
        lemma_picked_multiset(rest, down);
        let all = picked(s, o);
        assert(all.remove(n) =~= picked(rest, down)) by {
            assert forall|i: int| 0 <= i < n implies all[i] == picked(rest, down)[i] by {
                assert(o[i] != o[n]);
                assert(0 <= o[i] < s.len());
                assert(down[i] == if o[i] > at {
                    o[i] - 1
                } else {
                    o[i]
                });
            }
        }
        assert(all[n] == s[at]);
        assert(all.contains(s[at]) && s.contains(s[at]));
        assert(all.to_multiset() =~= all.remove(n).to_multiset().insert(s[at]));
        assert(s.to_multiset() =~= rest.to_multiset().insert(s[at]));
    }
}

/// Keys that are the same in some order have the same key at each place of their orders.
pub proof fn lemma_same_keys_in_order(
    keys: Seq<u64>,
    a: Seq<usize>,
    others: Seq<u64>,
    b: Seq<usize>,
    i: int,
)
    requires
        keys.to_multiset() == others.to_multiset(),
        is_stable_order(keys, a),
        is_stable_order(others, b),
        0 <= i < keys.len(),
    ensures
        keys.len() == others.len(),
        keys[a[i] as int] == others[b[i] as int],
{
    broadcast use vstd::seq_lib::group_to_multiset_ensures;

    assert(keys.len() == keys.to_multiset().len() && others.len() == others.to_multiset().len());
    let (pa, pb) = (
        Seq::new(a.len(), |k: int| a[k] as int),
        Seq::new(b.len(), |k: int| b[k] as int),
    );
    assert forall|k: int, l: int| 0 <= k < l < pa.len() implies pa[k] != pa[l] by {
        assert(keys[a[k] as int] < keys[a[l] as int] || a[k] < a[l]);
    }
    assert forall|k: int, l: int| 0 <= k < l < pb.len() implies pb[k] != pb[l] by {
        assert(others[b[k] as int] < others[b[l] as int] || b[k] < b[l]);
    }
    lemma_picked_multiset(keys, pa);
    lemma_picked_multiset(others, pb);
    let (x, y) = (picked(keys, pa), picked(others, pb));
    let leq = |u: u64, v: u64| u <= v;
    assert(vstd::relations::total_ordering(leq));
    assert(vstd::relations::sorted_by(x, leq)) by {
        assert forall|k: int, l: int| 0 <= k < l < x.len() implies #[trigger] leq(x[k], x[l]) by {
            assert(keys[a[k] as int] <= keys[a[l] as int]);
        }
    }
    assert(vstd::relations::sorted_by(y, leq)) by {
        assert forall|k: int, l: int| 0 <= k < l < y.len() implies #[trigger] leq(y[k], y[l]) by {
            assert(others[b[k] as int] <= others[b[l] as int]);
        }
    }
    vstd::seq_lib::lemma_sorted_unique(x, y, leq);
    assert(x[i] == y[i]);
}

} // verus!
