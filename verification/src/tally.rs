//! Counts and sums by name.
use vstd::prelude::*;
use crate::names::NameMap;

verus! {

/// Something to be counted under a name, with two sizes to be summed.
#[derive(Debug)]
pub struct Entry {
    pub key: String,
    pub first: u64,
    pub second: u64,
}

/// What a [`Entry`] stands for.
pub struct EntryModel {
    pub key: Seq<char>,
    pub first: nat,
    pub second: nat,
}

impl View for Entry {
    type V = EntryModel;

    open spec fn view(&self) -> EntryModel {
        EntryModel { key: self.key@, first: self.first as nat, second: self.second as nat }
    }
}

/// What has been counted under one name.
#[derive(Debug, Clone, Copy, PartialEq, Eq, Structural)]
pub struct Tally {
    pub count: usize,
    pub first: u128,
    pub second: u128,
}

/// How many entries have this name.
pub open spec fn count_of(entries: Seq<EntryModel>, key: Seq<char>) -> nat
    decreases entries.len(),
{
    if entries.len() == 0 {
        0
    } else {
        count_of(entries.drop_last(), key) + if entries.last().key == key {
            1nat
        } else {
            0
        }
    }
}

/// The sum of the first sizes of the entries with this name.
pub open spec fn first_of(entries: Seq<EntryModel>, key: Seq<char>) -> nat
    decreases entries.len(),
{
    if entries.len() == 0 {
        0
    } else {
        first_of(entries.drop_last(), key) + if entries.last().key == key {
            entries.last().first
        } else {
            0
        }
    }
}

/// The sum of the second sizes of the entries with this name.
pub open spec fn second_of(entries: Seq<EntryModel>, key: Seq<char>) -> nat
    decreases entries.len(),
{
    if entries.len() == 0 {
        0
    } else {
        second_of(entries.drop_last(), key) + if entries.last().key == key {
            entries.last().second
        } else {
            0
        }
    }
}

/// The map has the names of the entries, and for each name the count and the sums.
pub open spec fn tallied(m: Map<Seq<char>, Tally>, entries: Seq<EntryModel>) -> bool {
    &&& forall|k: Seq<char>| #[trigger] m.dom().contains(k) <==> count_of(entries, k) > 0
    &&& forall|k: Seq<char>|
        #![trigger m[k]]
        m.dom().contains(k) ==> {
            &&& m[k].count == count_of(entries, k)
            &&& m[k].first == first_of(entries, k)
            &&& m[k].second == second_of(entries, k)
        }
}

/// What entries stand for.
pub open spec fn entry_models(entries: Seq<Entry>) -> Seq<EntryModel> {
    Seq::new(entries.len(), |i: int| entries[i]@)
}

/// A name that no entry has is counted to nothing.
pub proof fn lemma_none(entries: Seq<EntryModel>, key: Seq<char>)
    requires
        count_of(entries, key) == 0,
    ensures
        first_of(entries, key) == 0,
        second_of(entries, key) == 0,
    decreases entries.len(),
{
    if entries.len() > 0 {
        lemma_none(entries.drop_last(), key);
    }
}

/// A name that no entry has sums up to nothing.
pub proof fn lemma_none_at(entries: Seq<EntryModel>, key: Seq<char>)
    ensures
        count_of(entries, key) == 0 ==> first_of(entries, key) == 0 && second_of(entries, key) == 0,
{
    if count_of(entries, key) == 0 {
        lemma_none(entries, key);
    }
}

/// A name is counted where an entry has it.
pub proof fn lemma_counted(entries: Seq<EntryModel>, key: Seq<char>)
    ensures
        count_of(entries, key) > 0 <==> exists|i: int|
            0 <= i < entries.len() && (#[trigger] entries[i]).key == key,
        count_of(entries, key) <= entries.len(),
    decreases entries.len(),
{
    if entries.len() > 0 {
        let before = entries.drop_last();
        lemma_counted(before, key);
        if entries.last().key == key {
            assert(entries[entries.len() - 1].key == key);
        }
        if count_of(before, key) > 0 {
            let i = choose|i: int| 0 <= i < before.len() && (#[trigger] before[i]).key == key;
            assert(entries[i].key == key);
        }
        if exists|i: int| 0 <= i < entries.len() && (#[trigger] entries[i]).key == key {
            let i = choose|i: int| 0 <= i < entries.len() && (#[trigger] entries[i]).key == key;
            if i < before.len() {
                assert(before[i].key == key);
            }
        }
    }
}

/// Sums of 64-bit sizes stay below their number times the greatest size.
proof fn lemma_bounded(entries: Seq<EntryModel>, key: Seq<char>)
    requires
        forall|i: int|
            0 <= i < entries.len() ==> (#[trigger] entries[i]).first <= u64::MAX
                && entries[i].second <= u64::MAX,
    ensures
        first_of(entries, key) <= entries.len() * u64::MAX,
        second_of(entries, key) <= entries.len() * u64::MAX,
    decreases entries.len(),
{
    if entries.len() > 0 {
        let before = entries.drop_last();
        assert forall|i: int| 0 <= i < before.len() implies (#[trigger] before[i]).first
            <= u64::MAX && before[i].second <= u64::MAX by {
            assert(before[i] == entries[i]);
        }
        lemma_bounded(before, key);
        assert(entries[entries.len() - 1] == entries.last());
        assert(entries.len() * u64::MAX == before.len() * u64::MAX + u64::MAX);
    }
}

/// Counts entries by name.
pub fn tally(entries: &[Entry]) -> (r: NameMap<Tally>)
    ensures
        r.wf(),
        tallied(r@, entry_models(entries@)),
{
    let ghost all = entry_models(entries@);
    let mut m: NameMap<Tally> = NameMap::new();
    let n: usize = entries.len();
    let mut i: usize = 0;
    while i < n
        invariant
            i <= n == entries@.len(),
            all == entry_models(entries@),
            m.wf(),
            tallied(m@, all.subrange(0, i as int)),
        decreases n - i,
    {
        let ghost had = all.subrange(0, i as int);
        let ghost longer = all.subrange(0, i + 1);
        let ghost before = m@;
        let e = &entries[i];
        let old: Tally = match m.get(e.key.as_str()) {
            Some(t) => *t,
            None => Tally { count: 0, first: 0, second: 0 },
        };
        proof {
            assert(longer.drop_last() =~= had);
            assert(longer.last() == e@);
            assert forall|j: int| 0 <= j < had.len() implies (#[trigger] had[j]).first <= u64::MAX
                && had[j].second <= u64::MAX by {
                assert(had[j] == entries@[j]@);
            }
            lemma_bounded(had, e.key@);
            lemma_counted(had, e.key@);
            if !before.dom().contains(e.key@) {
                lemma_none(had, e.key@);
            }
            assert(i * u64::MAX + u64::MAX <= u128::MAX) by (nonlinear_arith)
                requires
                    i <= u64::MAX,
            ;
        }
        m.insert(
            e.key.clone(),
            Tally {
                count: old.count + 1,
                first: old.first + e.first as u128,
                second: old.second + e.second as u128,
            },
        );
        i = i + 1;
        proof {
            assert forall|k: Seq<char>| #[trigger] m@.dom().contains(k) <==> count_of(longer, k)
                > 0 by {
                assert(before.dom().contains(k) <==> count_of(had, k) > 0);
            }
            assert forall|k: Seq<char>|
                #![trigger m@[k]]
                m@.dom().contains(k) implies {
                &&& m@[k].count == count_of(longer, k)
                &&& m@[k].first == first_of(longer, k)
                &&& m@[k].second == second_of(longer, k)
            } by {
                if k != e.key@ {
                    assert(before.dom().contains(k));
                    assert(before[k] == m@[k]);
                }
            }
        }
    }
    assert(all.subrange(0, n as int) =~= all);
    m
}

/// What has been counted under one number.
#[derive(Debug, Clone, Copy, PartialEq, Eq, Structural)]
pub struct NumberTally {
    pub key: u32,
    pub count: usize,
    pub sum: u128,
}

/// How many pairs have this number.
pub open spec fn number_count(pairs: Seq<(u32, u64)>, key: u32) -> nat
    decreases pairs.len(),
{
    if pairs.len() == 0 {
        0
    } else {
        number_count(pairs.drop_last(), key) + if pairs.last().0 == key {
            1nat
        } else {
            0
        }
    }
}

/// The sum of the sizes of the pairs with this number.
pub open spec fn number_sum(pairs: Seq<(u32, u64)>, key: u32) -> nat
    decreases pairs.len(),
{
    if pairs.len() == 0 {
        0
    } else {
        number_sum(pairs.drop_last(), key) + if pairs.last().0 == key {
            pairs.last().1 as nat
        } else {
            0
        }
    }
}

/// The tallies have the numbers of the pairs in order, and for each its count and its sum.
pub open spec fn numbers_tallied(v: Seq<NumberTally>, pairs: Seq<(u32, u64)>) -> bool {
    &&& forall|i: int, j: int|
        0 <= i < j < v.len() ==> (#[trigger] v[i]).key < (#[trigger] v[j]).key
    &&& forall|i: int|
        0 <= i < v.len() ==> {
            &&& (#[trigger] v[i]).count == number_count(pairs, v[i].key)
            &&& v[i].sum == number_sum(pairs, v[i].key)
            &&& v[i].count > 0
        }
    &&& forall|key: u32| #[trigger]
        number_count(pairs, key) > 0 ==> exists|i: int|
            0 <= i < v.len() && (#[trigger] v[i]).key == key
}

/// Counts and sums stay within the number of pairs; a number that no pair has sums to nothing.
pub proof fn lemma_number_bounds(pairs: Seq<(u32, u64)>, key: u32)
    ensures
        number_count(pairs, key) <= pairs.len(),
        number_sum(pairs, key) <= pairs.len() * u64::MAX,
        number_count(pairs, key) == 0 ==> number_sum(pairs, key) == 0,
    decreases pairs.len(),
{
    if pairs.len() > 0 {
        lemma_number_bounds(pairs.drop_last(), key);
        assert(pairs.len() * u64::MAX == (pairs.len() - 1) * u64::MAX + u64::MAX);
    }
}

/// Counts one more pair.
fn add_number(v: &mut Vec<NumberTally>, Ghost(pairs): Ghost<Seq<(u32, u64)>>, key: u32, size: u64)
    requires
        numbers_tallied(old(v)@, pairs),
        pairs.len() < usize::MAX,
    ensures
        numbers_tallied(final(v)@, pairs.push((key, size))),
{
    let ghost had = v@;
    let ghost longer = pairs.push((key, size));
    let n: usize = v.len();
    let mut p: usize = 0;
    proof {
        assert(longer.drop_last() =~= pairs);
        lemma_number_bounds(pairs, key);
        assert(pairs.len() * u64::MAX + u64::MAX <= u128::MAX) by (nonlinear_arith)
            requires
                pairs.len() <= u64::MAX,
        ;
    }
    while p < n && v[p].key < key
        invariant
            p <= n == v@.len(),
            v@ == had,
            forall|i: int| 0 <= i < p ==> (#[trigger] v@[i]).key < key,
        decreases n - p,
    {
        p = p + 1;
    }
    if p < n && v[p].key == key {
        let t = v[p];
        assert(had[p as int].sum == number_sum(pairs, key));
        v.set(p, NumberTally { key, count: t.count + 1, sum: t.sum + size as u128 });
        proof {
            assert forall|k: u32| #[trigger] number_count(longer, k) > 0 implies exists|i: int|
                0 <= i < v@.len() && (#[trigger] v@[i]).key == k by {
                if k == key {
                    assert(v@[p as int].key == k);
                } else {
                    assert(number_count(pairs, k) > 0);
                    let i = choose|i: int| 0 <= i < had.len() && (#[trigger] had[i]).key == k;
                    assert(v@[i].key == k);
                }
            }
        }
    } else {
        proof {
            if number_count(pairs, key) > 0 {
                let i = choose|i: int| 0 <= i < had.len() && (#[trigger] had[i]).key == key;
                if i > p {
                    assert(had[p as int].key < had[i].key);
                }
            }
        }
        v.insert(p, NumberTally { key, count: 1, sum: size as u128 });
        proof {
            assert(v@ == had.insert(p as int, NumberTally { key, count: 1, sum: size as u128 }));
            assert forall|i: int| 0 <= i < v@.len() implies {
                &&& (#[trigger] v@[i]).count == number_count(longer, v@[i].key)
                &&& v@[i].sum == number_sum(longer, v@[i].key)
                &&& v@[i].count > 0
            } by {
                if i < p {
                    assert(v@[i] == had[i]);
                } else if i > p {
                    assert(v@[i] == had[i - 1]);
                    if p < n {
                        assert(had[p as int].key <= had[i - 1].key);
                    }
                }
            }
            assert forall|i: int, j: int| 0 <= i < j < v@.len() implies (#[trigger] v@[i]).key < (
            #[trigger] v@[j]).key by {
                if i < p {
                    assert(v@[i] == had[i]);
                } else if i > p {
                    assert(v@[i] == had[i - 1]);
                }
                if j < p {
                    assert(v@[j] == had[j]);
                } else if j > p {
                    assert(v@[j] == had[j - 1]);
                    assert(had[p as int].key <= had[j - 1].key);
                }
            }
            assert forall|k: u32| #[trigger] number_count(longer, k) > 0 implies exists|i: int|
                0 <= i < v@.len() && (#[trigger] v@[i]).key == k by {
                if k == key {
                    assert(v@[p as int].key == k);
                } else {
                    assert(number_count(pairs, k) > 0);
                    let i = choose|i: int| 0 <= i < had.len() && (#[trigger] had[i]).key == k;
                    if i < p {
                        assert(v@[i].key == k);
                    } else {
                        assert(v@[i + 1].key == k);
                    }
                }
            }
        }
    }
}

/// Counts pairs by their numbers.
pub fn tally_numbers(pairs: &[(u32, u64)]) -> (r: Vec<NumberTally>)
    ensures
        numbers_tallied(r@, pairs@),
{
    let n: usize = pairs.len();
    let mut v: Vec<NumberTally> = Vec::new();
    let mut i: usize = 0;
    proof {
        assert forall|key: u32| #[trigger] number_count(pairs@.subrange(0, 0), key) == 0 by {}
    }
    while i < n
        invariant
            i <= n == pairs@.len(),
            numbers_tallied(v@, pairs@.subrange(0, i as int)),
        decreases n - i,
    {
        let (key, size) = pairs[i];
        add_number(&mut v, Ghost(pairs@.subrange(0, i as int)), key, size);
        assert(pairs@.subrange(0, i + 1) =~= pairs@.subrange(0, i as int).push((key, size)));
        i = i + 1;
    }
    assert(pairs@.subrange(0, n as int) =~= pairs@);
    v
}

/// The number with the greatest sum; of several, the greatest number; zero where there are no
/// pairs.
pub open spec fn is_heaviest(pairs: Seq<(u32, u64)>, r: u32) -> bool {
    if pairs.len() == 0 {
        r == 0
    } else {
        &&& number_count(pairs, r) > 0
        &&& forall|key: u32| #[trigger]
            number_count(pairs, key) > 0 ==> number_sum(pairs, key) < number_sum(pairs, r) || (
            number_sum(pairs, key) == number_sum(pairs, r) && key <= r)
    }
}

/// The number with the greatest sum; of several, the greatest number; zero where there are no
/// pairs.
pub fn heaviest(pairs: &[(u32, u64)]) -> (r: u32)
    ensures
        is_heaviest(pairs@, r),
{
    let v = tally_numbers(pairs);
    let n: usize = v.len();
    if n == 0 {
        proof {
            if pairs@.len() > 0 {
                assert(number_count(pairs@, pairs@.last().0) > 0);
            }
        }
        return 0;
    }
    let mut best: usize = 0;
    let mut i: usize = 1;
    while i < n
        invariant
            best < i <= n == v@.len(),
            numbers_tallied(v@, pairs@),
            forall|j: int|
                0 <= j < i ==> (#[trigger] v@[j]).sum < v@[best as int].sum || (v@[j].sum
                    == v@[best as int].sum && j <= best),
        decreases n - i,
    {
        if v[i].sum >= v[best].sum {
            best = i;
        }
        i = i + 1;
    }
    proof {
        assert(v@[best as int].count > 0);
        assert forall|key: u32| #[trigger] number_count(pairs@, key) > 0 implies number_sum(
            pairs@,
            key,
        ) < number_sum(pairs@, v@[best as int].key) || (number_sum(pairs@, key) == number_sum(
            pairs@,
            v@[best as int].key,
        ) && key <= v@[best as int].key) by {
            let j = choose|j: int| 0 <= j < v@.len() && (#[trigger] v@[j]).key == key;
            assert(v@[j].sum == number_sum(pairs@, key));
        }
        if pairs@.len() == 0 {
            assert(number_count(pairs@, v@[best as int].key) == 0);
        }
    }
    v[best].key
}

} // verus!
