//! How far two distributions are apart over many positions.
//!
//! The divergence of two rows is a sum of exponentials and comes from the caller, as the bits of a
//! double-precision number. Which token a distribution prefers, which logits of two rows belong
//! together, and which of many divergences stands at which quantile, is told here.
use vstd::prelude::*;
use crate::floats;
use crate::floats::{is_above, F32_NEG_INF};
use crate::order;
use crate::order::stable_order;

pub mod laws;

verus! {

/// The best place so far and its logit, told one by one from minus infinity on: a later logit
/// replaces an earlier one where it is above it.
pub open spec fn best_of(v: Seq<u32>) -> (int, u32)
    decreases v.len(),
{
    if v.len() == 0 {
        (0, F32_NEG_INF)
    } else {
        let (i, x) = best_of(v.drop_last());
        if floats::above(v.last(), x) {
            (v.len() - 1, v.last())
        } else {
            (i, x)
        }
    }
}

/// The place of the greatest logit, the first of several; zero where there is none.
pub fn argmax(v: &[u32]) -> (r: usize)
    ensures
        r == best_of(v@).0,
{
    let n: usize = v.len();
    let mut best: usize = 0;
    let mut x: u32 = F32_NEG_INF;
    let mut i: usize = 0;
    while i < n
        invariant
            i <= n == v@.len(),
            (best as int, x) == best_of(v@.subrange(0, i as int)),
        decreases n - i,
    {
        let ghost longer = v@.subrange(0, i + 1);
        assert(longer.drop_last() =~= v@.subrange(0, i as int));
        if is_above(v[i], x) {
            x = v[i];
            best = i;
        }
        i = i + 1;
    }
    assert(v@.subrange(0, n as int) =~= v@);
    best
}

/// Whether two rows have their greatest logit at the same place.
pub fn top1_agrees(reference: &[u32], candidate: &[u32]) -> (r: bool)
    ensures
        r == (best_of(reference@).0 == best_of(candidate@).0),
{
    argmax(reference) == argmax(candidate)
}

/// Among numbers above minus infinity, no logit is above the one at the best place, and none
/// before it reaches it.
pub proof fn law_best_is_greatest(v: Seq<u32>, i: int)
    requires
        0 <= i < v.len(),
        forall|j: int|
            0 <= j < v.len() ==> !floats::nan(#[trigger] v[j]) && floats::above(v[j], F32_NEG_INF),
    ensures
        0 <= best_of(v).0 < v.len(),
        best_of(v).1 == v[best_of(v).0],
        floats::rank(v[i]) <= floats::rank(v[best_of(v).0]),
        i < best_of(v).0 ==> floats::rank(v[i]) < floats::rank(v[best_of(v).0]),
    decreases v.len(),
{
    let before = v.drop_last();
    assert(floats::above(v[v.len() - 1], F32_NEG_INF));
    assert forall|j: int| 0 <= j < before.len() implies !floats::nan(#[trigger] before[j])
        && floats::above(before[j], F32_NEG_INF) by {
        assert(before[j] == v[j]);
        assert(floats::above(v[j], F32_NEG_INF));
    }
    if before.len() > 0 {
        if i < v.len() - 1 {
            law_best_is_greatest(before, i);
        } else {
            law_best_is_greatest(before, 0);
        }
        assert(before[best_of(before).0] == v[best_of(before).0]);
    }
}

/// `r` says of each id where it first stands in `among`.
pub open spec fn are_places(ids: Seq<u32>, among: Seq<u32>, r: Seq<Option<usize>>) -> bool {
    &&& r.len() == ids.len()
    &&& forall|i: int|
        0 <= i < r.len() ==> match #[trigger] r[i] {
            Some(j) => j < among.len() && among[j as int] == ids[i] && forall|k: int|
                0 <= k < j ==> among[k] != ids[i],
            None => forall|k: int| 0 <= k < among.len() ==> among[k] != ids[i],
        }
}

/// Where an id first stands in `among`.
fn place_in(id: u32, among: &[u32]) -> (r: Option<usize>)
    ensures
        match r {
            Some(j) => j < among@.len() && among@[j as int] == id && forall|k: int|
                0 <= k < j ==> among@[k] != id,
            None => forall|k: int| 0 <= k < among@.len() ==> among@[k] != id,
        },
{
    let n: usize = among.len();
    let mut k: usize = 0;
    while k < n
        invariant
            k <= n == among@.len(),
            forall|j: int| 0 <= j < k ==> among@[j] != id,
        decreases n - k,
    {
        if among[k] == id {
            return Some(k);
        }
        k = k + 1;
    }
    None
}

/// Where each id of a reference row stands among those of a candidate row.
pub fn places_in(ids: &[u32], among: &[u32]) -> (r: Vec<Option<usize>>)
    ensures
        are_places(ids@, among@, r@),
{
    let n: usize = ids.len();
    let mut r: Vec<Option<usize>> = Vec::new();
    let mut i: usize = 0;
    while i < n
        invariant
            i <= n == ids@.len(),
            r@.len() == i,
            are_places(ids@.subrange(0, i as int), among@, r@),
        decreases n - i,
    {
        r.push(place_in(ids[i], among));
        i = i + 1;
    }
    assert(ids@.subrange(0, n as int) =~= ids@);
    r
}

/// Over how many ids the mass that a row does not store is spread: those it does not store, and
/// one where it stores all.
pub fn unstored_ids(vocab: usize, stored: usize) -> (r: usize)
    ensures
        r == if vocab > stored {
            vocab - stored
        } else {
            1
        },
{
    if vocab > stored {
        vocab - stored
    } else {
        1
    }
}

/// Bits of a double-precision number that stand for no number.
pub open spec fn nan64(bits: u64) -> bool {
    bits % 0x8000_0000_0000_0000 > 0x7ff0_0000_0000_0000
}

/// A key that grows with the double-precision number that the bits stand for; both zeros have one
/// key.
pub open spec fn key64(bits: u64) -> u64 {
    if bits >= 0x8000_0000_0000_0000 {
        (0x8000_0000_0000_0000 - (bits - 0x8000_0000_0000_0000)) as u64
    } else {
        (0x8000_0000_0000_0000 + bits) as u64
    }
}

/// The keys of divergences.
pub open spec fn keys64(values: Seq<u64>) -> Seq<u64> {
    Seq::new(values.len(), |i: int| key64(values[i]))
}

/// The place of the quantile `p` hundredths among `n` in order: `p` hundredths of the way from the
/// first to the last, and the later place half-way between two.
pub open spec fn quantile_place(n: nat, p: nat) -> int
    recommends
        n > 0,
        p <= 100,
{
    ((n - 1) * p * 2 + 100) / 200
}

/// `x` stands at a place of these values in order.
pub open spec fn stands_at(values: Seq<u64>, place: int, x: u64) -> bool {
    exists|o: Seq<usize>|
        #![trigger order::is_stable_order(keys64(values), o)]
        order::is_stable_order(keys64(values), o) && 0 <= place < o.len() && x
            == values[o[place] as int]
}

/// Gathers the divergences of many positions.
#[derive(Debug)]
pub struct KlAccumulator {
    /// The divergences, by their bits.
    pub values: Vec<u64>,
    /// At how many positions both prefer the same token.
    pub top1_hits: usize,
    /// At how many positions the token that follows is known.
    pub target_count: usize,
}

/// What the divergences of many positions come to, without the means.
#[derive(Debug, Clone, Copy, PartialEq, Eq, Structural)]
pub struct KlRanks {
    pub n: usize,
    pub median: u64,
    pub p90: u64,
    pub p99: u64,
    pub max: u64,
}

/// What divergences come to: all zero where there are none.
pub open spec fn are_ranks(values: Seq<u64>, r: KlRanks) -> bool {
    &&& r.n == values.len()
    &&& r.n == 0 ==> r == (KlRanks { n: 0, median: 0, p90: 0, p99: 0, max: 0 })
    &&& r.n > 0 ==> stands_at(values, quantile_place(r.n as nat, 50), r.median)
        && stands_at(values, quantile_place(r.n as nat, 90), r.p90) && stands_at(
        values,
        quantile_place(r.n as nat, 99),
        r.p99,
    ) && stands_at(values, r.n - 1, r.max)
}

/// The divergences of positions.
pub open spec fn values_of(positions: Seq<(u64, bool)>) -> Seq<u64> {
    Seq::new(positions.len(), |i: int| positions[i].0)
}

/// At which positions both prefer the same token.
pub open spec fn flags_of(positions: Seq<(u64, bool)>) -> Seq<bool> {
    Seq::new(positions.len(), |i: int| positions[i].1)
}

impl KlAccumulator {
    /// These positions were taken in this order.
    pub open spec fn holds(&self, positions: Seq<(u64, bool)>) -> bool {
        &&& self.values@ == values_of(positions)
        &&& self.top1_hits == flags_of(positions).to_multiset().count(true)
    }

    /// Nothing yet.
    pub fn new() -> (r: KlAccumulator)
        ensures
            r.holds(Seq::empty()),
            r.values@.len() == 0,
            r.top1_hits == 0,
            r.target_count == 0,
    {
        proof {
            broadcast use vstd::seq_lib::group_to_multiset_ensures;

            let none = flags_of(Seq::empty());
            assert(!none.contains(true));
            assert(none.to_multiset().count(true) == 0);
        }
        let r = KlAccumulator { values: Vec::new(), top1_hits: 0, target_count: 0 };
        assert(r.values@ =~= values_of(Seq::empty()));
        r
    }

    /// There are no more hits than positions.
    pub open spec fn wf(&self) -> bool {
        self.top1_hits <= self.values@.len()
    }

    /// Takes the divergence of one position, and whether both prefer the same token there.
    pub fn push(&mut self, kl: u64, top1: bool)
        requires
            old(self).wf(),
        ensures
            final(self).wf(),
            final(self).values@ == old(self).values@.push(kl),
            final(self).top1_hits == old(self).top1_hits + (if top1 {
                1int
            } else {
                0
            }),
            final(self).target_count == old(self).target_count,
            forall|p: Seq<(u64, bool)>| #[trigger]
                old(self).holds(p) ==> final(self).holds(p.push((kl, top1))),
    {
        self.values.push(kl);
        if top1 {
            assert(self.values.len() <= usize::MAX);
            self.top1_hits = self.top1_hits + 1;
        }
        proof {
            broadcast use vstd::seq_lib::group_to_multiset_ensures;
            broadcast use vstd::multiset::group_multiset_axioms;

            assert forall|p: Seq<(u64, bool)>| #[trigger] old(self).holds(p) implies self.holds(
                p.push((kl, top1)),
            ) by {
                assert(values_of(p.push((kl, top1))) =~= values_of(p).push(kl));
                assert(flags_of(p.push((kl, top1))) =~= flags_of(p).push(top1));
            }
        }
    }

    /// Takes note of a position whose next token is known.
    pub fn push_target(&mut self)
        requires
            old(self).target_count < usize::MAX,
        ensures
            final(self).values@ == old(self).values@,
            final(self).top1_hits == old(self).top1_hits,
            final(self).target_count == old(self).target_count + 1,
    {
        self.target_count = self.target_count + 1;
    }

    /// Whether there are no positions.
    pub fn is_empty(&self) -> (r: bool)
        ensures
            r == (self.values@.len() == 0),
    {
        self.values.len() == 0
    }

    /// The quantiles of the divergences; all zero where there are none.
    pub fn finish(&self) -> (r: KlRanks)
        requires
            forall|i: int| 0 <= i < self.values@.len() ==> !nan64(#[trigger] self.values@[i]),
        ensures
            are_ranks(self.values@, r),
    {
        let n: usize = self.values.len();
        if n == 0 {
            return KlRanks { n: 0, median: 0, p90: 0, p99: 0, max: 0 };
        }
        let mut keys: Vec<u64> = Vec::new();
        let mut i: usize = 0;
        while i < n
            invariant
                i <= n == self.values@.len(),
                keys@ == keys64(self.values@).subrange(0, i as int),
            decreases n - i,
        {
            let v: u64 = self.values[i];
            let key: u64 = if v >= 0x8000_0000_0000_0000 {
                0x8000_0000_0000_0000 - (v - 0x8000_0000_0000_0000)
            } else {
                0x8000_0000_0000_0000 + v
            };
            keys.push(key);
            assert(keys@ =~= keys64(self.values@).subrange(0, i + 1));
            i = i + 1;
        }
        assert(keys@ =~= keys64(self.values@));
        let o = stable_order(keys.as_slice());
        let median: u64 = self.values[o[place_of(n, 50)]];
        let p90: u64 = self.values[o[place_of(n, 90)]];
        let p99: u64 = self.values[o[place_of(n, 99)]];
        let max: u64 = self.values[o[n - 1]];
        KlRanks { n, median, p90, p99, max }
    }
}

/// The place of the quantile `p` hundredths among `n` in order.
fn place_of(n: usize, p: u8) -> (r: usize)
    requires
        n > 0,
        p <= 100,
    ensures
        r == quantile_place(n as nat, p as nat),
        r < n,
{
    proof {
        assert(0 <= (n - 1) * p <= (n - 1) * 100) by (nonlinear_arith)
            requires
                n > 0,
                p <= 100,
        ;
    }
    ((((n - 1) as u128) * (p as u128) * 2 + 100) / 200) as usize
}

/// Of numbers, the median is not above the ninetieth hundredth, that not above the ninety-ninth,
/// and that not above the greatest.
pub proof fn law_quantiles_grow(values: Seq<u64>, median: u64, p90: u64, p99: u64, max: u64)
    requires
        0 < values.len() <= usize::MAX,
        stands_at(values, quantile_place(values.len(), 50), median),
        stands_at(values, quantile_place(values.len(), 90), p90),
        stands_at(values, quantile_place(values.len(), 99), p99),
        stands_at(values, values.len() - 1, max),
    ensures
        key64(median) <= key64(p90) <= key64(p99) <= key64(max),
        forall|i: int| 0 <= i < values.len() ==> key64(#[trigger] values[i]) <= key64(max),
{
    let n = values.len();
    assert(quantile_place(n, 50) <= quantile_place(n, 90) <= quantile_place(n, 99) <= n - 1);
    lemma_stands_in_order(values, quantile_place(n, 50), median, quantile_place(n, 90), p90);
    lemma_stands_in_order(values, quantile_place(n, 90), p90, quantile_place(n, 99), p99);
    lemma_stands_in_order(values, quantile_place(n, 99), p99, n - 1, max);
    let keys = keys64(values);
    let o = choose|o: Seq<usize>|
        #![trigger order::is_stable_order(keys64(values), o)]
        order::is_stable_order(keys64(values), o) && 0 <= n - 1 < o.len() && max == values[o[n
            - 1] as int];
    assert forall|i: int| 0 <= i < values.len() implies key64(#[trigger] values[i]) <= key64(
        max,
    ) by {
        order::lemma_order_covers(keys, o, i);
        let p = choose|p: int| 0 <= p < o.len() && o[p] == i as usize;
        assert(keys[o[p] as int] == key64(values[i]));
        assert(keys[o[n - 1] as int] == key64(max));
    }
}

/// A value at an earlier place is not above one at a later place.
proof fn lemma_stands_in_order(values: Seq<u64>, p: int, x: u64, q: int, y: u64)
    requires
        values.len() <= usize::MAX,
        stands_at(values, p, x),
        stands_at(values, q, y),
        p <= q,
    ensures
        key64(x) <= key64(y),
{
    let keys = keys64(values);
    let a = choose|o: Seq<usize>|
        #![trigger order::is_stable_order(keys64(values), o)]
        order::is_stable_order(keys64(values), o) && 0 <= p < o.len() && x == values[o[p] as int];
    let b = choose|o: Seq<usize>|
        #![trigger order::is_stable_order(keys64(values), o)]
        order::is_stable_order(keys64(values), o) && 0 <= q < o.len() && y == values[o[q] as int];
    order::lemma_order_unique(keys, a, b);
    assert(keys[a[p] as int] == key64(x));
    assert(keys[a[q] as int] == key64(y));
}

/// Bits of the same number: the same bits, or both a zero.
pub open spec fn same_number(x: u64, y: u64) -> bool {
    x == y || (x % 0x8000_0000_0000_0000 == 0 && y % 0x8000_0000_0000_0000 == 0)
}

/// What the positions come to does not depend on the order in which they were taken: as many
/// positions, as many at which both prefer the same token, and the same median, quantiles and
/// greatest number.
pub proof fn law_order_of_positions_does_not_matter(
    p: Seq<(u64, bool)>,
    q: Seq<(u64, bool)>,
    a: KlAccumulator,
    b: KlAccumulator,
    x: KlRanks,
    y: KlRanks,
)
    requires
        p.to_multiset() == q.to_multiset(),
        a.holds(p),
        b.holds(q),
        are_ranks(a.values@, x),
        are_ranks(b.values@, y),
    ensures
        a.top1_hits == b.top1_hits,
        x.n == y.n,
        same_number(x.median, y.median),
        same_number(x.p90, y.p90),
        same_number(x.p99, y.p99),
        same_number(x.max, y.max),
{
    broadcast use vstd::seq_lib::group_to_multiset_ensures;

    assert(p.len() == p.to_multiset().len() && q.len() == q.to_multiset().len());
    let flag = |t: (u64, bool)| t.1;
    let key = |t: (u64, bool)| key64(t.0);
    order::lemma_mapped_multiset(p, q, flag);
    order::lemma_mapped_multiset(p, q, key);
    assert(flags_of(p) =~= p.map_values(flag) && flags_of(q) =~= q.map_values(flag));
    assert(keys64(a.values@) =~= p.map_values(key) && keys64(b.values@) =~= q.map_values(key));
    if x.n > 0 {
        let n = x.n as nat;
        lemma_same_at_place(a.values@, b.values@, quantile_place(n, 50), x.median, y.median);
        lemma_same_at_place(a.values@, b.values@, quantile_place(n, 90), x.p90, y.p90);
        lemma_same_at_place(a.values@, b.values@, quantile_place(n, 99), x.p99, y.p99);
        lemma_same_at_place(a.values@, b.values@, n - 1, x.max, y.max);
    }
}

/// Every value in ascending order, whichever way equal numbers stand.
pub open spec fn ascending(s: Seq<u64>) -> bool {
    forall|i: int, j: int|
        0 <= i <= j < s.len() ==> key64(#[trigger] s[i]) <= key64(#[trigger] s[j])
}

/// What positions come to, in whatever order they were taken. With `s` for their divergences in
/// ascending order: as many positions as were taken, as many hits as positions at which both prefer
/// the same token, the numbers in `s` at half, nine tenths and ninety-nine hundredths of the way
/// from the first to the last, and the last. They ascend, and no divergence is above the last.
pub proof fn law_finish_reads_the_ordered_values(
    p: Seq<(u64, bool)>,
    a: KlAccumulator,
    x: KlRanks,
    s: Seq<u64>,
)
    requires
        a.holds(p),
        are_ranks(a.values@, x),
        s.to_multiset() == values_of(p).to_multiset(),
        ascending(s),
    ensures
        x.n == p.len() == s.len(),
        a.top1_hits == flags_of(p).to_multiset().count(true) <= p.len(),
        p.len() == 0 ==> x == (KlRanks { n: 0, median: 0, p90: 0, p99: 0, max: 0 }),
        p.len() > 0 ==> {
            let n = p.len();
            &&& same_number(x.median, s[quantile_place(n, 50)])
            &&& same_number(x.p90, s[quantile_place(n, 90)])
            &&& same_number(x.p99, s[quantile_place(n, 99)])
            &&& same_number(x.max, s[n - 1])
            &&& key64(x.median) <= key64(x.p90) <= key64(x.p99) <= key64(x.max)
            &&& forall|i: int| 0 <= i < n ==> key64((#[trigger] p[i]).0) <= key64(x.max)
        },
{
    broadcast use vstd::seq_lib::group_to_multiset_ensures;
    broadcast use vstd::multiset::group_multiset_axioms;
    broadcast use vstd::multiset::group_multiset_properties;

    let values = values_of(p);
    assert(s.len() == s.to_multiset().len() && values.len() == values.to_multiset().len());
    assert(flags_of(p).to_multiset().len() == p.len());
    let n = p.len();
    if n > 0 {
        let key = |v: u64| key64(v);
        order::lemma_mapped_multiset(values, s, key);
        assert(keys64(values) =~= values.map_values(key) && keys64(s) =~= s.map_values(key));
        assert(quantile_place(n, 50) <= quantile_place(n, 90) <= quantile_place(n, 99) <= n - 1);
        assert(0 <= quantile_place(n, 50));
        lemma_stands_in_ordered(s, quantile_place(n, 50));
        lemma_stands_in_ordered(s, quantile_place(n, 90));
        lemma_stands_in_ordered(s, quantile_place(n, 99));
        lemma_stands_in_ordered(s, n - 1);
        lemma_same_at_place(
            values,
            s,
            quantile_place(n, 50),
            x.median,
            s[quantile_place(n, 50)],
        );
        lemma_same_at_place(values, s, quantile_place(n, 90), x.p90, s[quantile_place(n, 90)]);
        lemma_same_at_place(values, s, quantile_place(n, 99), x.p99, s[quantile_place(n, 99)]);
        lemma_same_at_place(values, s, n - 1, x.max, s[n - 1]);
        law_quantiles_grow(values, x.median, x.p90, x.p99, x.max);
        assert forall|i: int| 0 <= i < n implies key64((#[trigger] p[i]).0) <= key64(x.max) by {
            assert(values[i] == p[i].0);
        }
    }
}

/// Of values in ascending order, each stands at its own place.
proof fn lemma_stands_in_ordered(s: Seq<u64>, place: int)
    requires
        ascending(s),
        0 <= place < s.len() <= usize::MAX,
    ensures
        stands_at(s, place, s[place]),
{
    let o = Seq::new(s.len(), |i: int| i as usize);
    let keys = keys64(s);
    assert forall|i: int, j: int| 0 <= i < j < o.len() implies keys[#[trigger] o[i] as int]
        < keys[#[trigger] o[j] as int] || (keys[o[i] as int] == keys[o[j] as int] && o[i]
        < o[j]) by {
        assert(key64(s[i]) <= key64(s[j]));
    }
    assert(order::is_stable_order(keys, o));
}

/// What stands at one place of the same values in some order is the same number.
proof fn lemma_same_at_place(values: Seq<u64>, others: Seq<u64>, place: int, x: u64, y: u64)
    requires
        keys64(values).to_multiset() == keys64(others).to_multiset(),
        stands_at(values, place, x),
        stands_at(others, place, y),
    ensures
        same_number(x, y),
{
    let a = choose|o: Seq<usize>|
        #![trigger order::is_stable_order(keys64(values), o)]
        order::is_stable_order(keys64(values), o) && 0 <= place < o.len() && x
            == values[o[place] as int];
    let b = choose|o: Seq<usize>|
        #![trigger order::is_stable_order(keys64(others), o)]
        order::is_stable_order(keys64(others), o) && 0 <= place < o.len() && y
            == others[o[place] as int];
    order::lemma_same_keys_in_order(keys64(values), a, keys64(others), b, place);
    assert(keys64(values)[a[place] as int] == key64(x));
    assert(keys64(others)[b[place] as int] == key64(y));
}

} // verus!
