//! A map from texts to values whose keys are held in order.
use vstd::prelude::*;
use crate::text;

verus! {

/// A map from texts to values, in the order of the texts.
#[derive(Debug)]
pub struct NameMap<V> {
    pub items: Vec<(String, V)>,
}

/// The keys of a list of pairs.
pub open spec fn keys_of<V>(items: Seq<(String, V)>) -> Seq<Seq<char>> {
    Seq::new(items.len(), |i: int| items[i].0@)
}

/// Every text stands before the texts behind it.
pub open spec fn in_order(keys: Seq<Seq<char>>) -> bool {
    forall|i: int, j: int|
        0 <= i < j < keys.len() ==> text::precedes(#[trigger] keys[i], #[trigger] keys[j])
}

/// The value that stands beside `key` in a list of pairs.
pub open spec fn value_of<V>(items: Seq<(String, V)>, key: Seq<char>) -> V {
    items[keys_of(items).index_of(key)].1
}

impl<V> View for NameMap<V> {
    type V = Map<Seq<char>, V>;

    open spec fn view(&self) -> Map<Seq<char>, V> {
        Map::new(
            |key: Seq<char>| keys_of(self.items@).contains(key),
            |key: Seq<char>| value_of(self.items@, key),
        )
    }
}

/// Texts in order are different.
pub proof fn lemma_in_order_distinct(keys: Seq<Seq<char>>, i: int, j: int)
    requires
        in_order(keys),
        0 <= i < keys.len(),
        0 <= j < keys.len(),
        keys[i] == keys[j],
    ensures
        i == j,
{
    text::lemma_precedes_irreflexive(keys[i]);
}

impl<V> NameMap<V> {
    /// The keys are in order, so none occurs twice.
    pub open spec fn wf(&self) -> bool {
        in_order(keys_of(self.items@))
    }

    /// The keys from the first to the last.
    pub open spec fn keys(&self) -> Seq<Seq<char>> {
        keys_of(self.items@)
    }

    /// What the map says of the key of a pair is the value of that pair.
    pub proof fn lemma_at(&self, i: int)
        requires
            self.wf(),
            0 <= i < self.items@.len(),
        ensures
            self@.dom().contains(self.items@[i].0@),
            self@[self.items@[i].0@] == self.items@[i].1,
    {
        let keys = self.keys();
        let key = self.items@[i].0@;
        assert(keys[i] == key);
        assert(keys.contains(key));
        let j = keys.index_of(key);
        lemma_in_order_distinct(keys, i, j);
    }

    /// A key of the map is the key of a pair.
    pub proof fn lemma_found(&self, key: Seq<char>) -> (i: int)
        requires
            self@.dom().contains(key),
        ensures
            0 <= i < self.items@.len(),
            self.items@[i].0@ == key,
    {
        let i = self.keys().index_of(key);
        assert(self.keys()[i] == key);
        i
    }

    /// An empty map.
    pub fn new() -> (r: NameMap<V>)
        ensures
            r.wf(),
            r@ == Map::<Seq<char>, V>::empty(),
            r.items@.len() == 0,
    {
        let r: NameMap<V> = NameMap { items: Vec::new() };
        assert(r@ =~= Map::<Seq<char>, V>::empty());
        r
    }

    /// How many keys there are.
    pub fn len(&self) -> (r: usize)
        ensures
            r == self.items@.len(),
    {
        self.items.len()
    }

    /// The first position whose key does not stand before `key`.
    fn position(&self, key: &str) -> (p: usize)
        requires
            self.wf(),
        ensures
            p <= self.items@.len(),
            forall|i: int| 0 <= i < p ==> text::precedes(#[trigger] self.keys()[i], key@),
            p < self.items@.len() ==> !text::precedes(self.keys()[p as int], key@),
    {
        let mut lo: usize = 0;
        let mut hi: usize = self.items.len();
        while lo < hi
            invariant
                self.wf(),
                lo <= hi <= self.items@.len(),
                forall|j: int| 0 <= j < lo ==> text::precedes(#[trigger] self.keys()[j], key@),
                hi < self.items@.len() ==> !text::precedes(self.keys()[hi as int], key@),
            decreases hi - lo,
        {
            let mid: usize = lo + (hi - lo) / 2;
            if text::is_before(self.items[mid].0.as_str(), key) {
                proof {
                    assert(text::precedes(self.keys()[mid as int], key@));
                    assert forall|j: int| 0 <= j < mid + 1 implies text::precedes(
                        #[trigger] self.keys()[j],
                        key@,
                    ) by {
                        if j < mid {
                            text::lemma_precedes_transitive(
                                self.keys()[j],
                                self.keys()[mid as int],
                                key@,
                            );
                        }
                    }
                }
                lo = mid + 1;
            } else {
                assert(!text::precedes(self.keys()[mid as int], key@));
                hi = mid;
            }
        }
        lo
    }

    /// The value of a key.
    pub fn get(&self, key: &str) -> (r: Option<&V>)
        requires
            self.wf(),
        ensures
            match r {
                Some(v) => self@.dom().contains(key@) && *v == self@[key@],
                None => !self@.dom().contains(key@),
            },
    {
        let p: usize = self.position(key);
        if p < self.items.len() && text::same(self.items[p].0.as_str(), key) {
            proof {
                self.lemma_at(p as int);
            }
            return Some(&self.items[p].1);
        }
        proof {
            if self@.dom().contains(key@) {
                let i = self.lemma_found(key@);
                text::lemma_precedes_irreflexive(key@);
                assert(self.keys()[i] == key@);
                if i > p {
                    text::lemma_precedes_total(self.keys()[p as int], key@);
                    assert(text::precedes(self.keys()[p as int], self.keys()[i]));
                }
            }
        }
        None
    }

    /// Whether the map has a key.
    pub fn contains(&self, key: &str) -> (r: bool)
        requires
            self.wf(),
        ensures
            r == self@.dom().contains(key@),
    {
        self.get(key).is_some()
    }

    /// Sets the value of a key.
    pub fn insert(&mut self, key: String, value: V)
        requires
            old(self).wf(),
        ensures
            final(self).wf(),
            final(self)@ == old(self)@.insert(key@, value),
    {
        let p: usize = self.position(key.as_str());
        let ghost before = self.items@;
        let ghost keys = keys_of(before);
        assert(keys == self.keys());
        assert(forall|i: int| 0 <= i < p ==> text::precedes(#[trigger] keys[i], key@));
        let replace: bool = p < self.items.len() && text::same(
            self.items[p].0.as_str(),
            key.as_str(),
        );
        let ghost k = key@;
        if replace {
            self.items.remove(p);
        }
        self.items.insert(p, (key, value));
        proof {
            let after = keys_of(self.items@);
            let step: int = if replace {
                0
            } else {
                1
            };
            assert forall|i: int| 0 <= i < after.len() implies #[trigger] after[i] == (if i < p {
                keys[i]
            } else if i == p {
                k
            } else {
                keys[i - step]
            }) by {}
            if p < before.len() {
                text::lemma_precedes_total(keys[p as int], k);
            }
            assert forall|i: int, j: int| 0 <= i < j < after.len() implies text::precedes(
                #[trigger] after[i],
                #[trigger] after[j],
            ) by {
                let a = i - (if i > p { step } else { 0 });
                let b = j - (if j > p { step } else { 0 });
                if i != p && j != p {
                    assert(text::precedes(keys[a], keys[b]));
                } else if i == p {
                    if replace {
                        assert(text::precedes(keys[p as int], keys[b]));
                    } else if b > p {
                        assert(text::precedes(keys[p as int], keys[b]));
                        text::lemma_precedes_transitive(k, keys[p as int], keys[b]);
                    } else {
                        assert(text::precedes(k, keys[p as int]));
                    }
                } else {
                    assert(text::precedes(keys[i], k));
                }
            }
            assert(self.wf());
            let want = old(self)@.insert(k, value);
            assert forall|q: Seq<char>| self@.dom().contains(q) == want.dom().contains(q) by {
                if self@.dom().contains(q) {
                    let i = self.lemma_found(q);
                    if i != p {
                        let a = i - (if i > p { step } else { 0 });
                        assert(keys[a] == q);
                        assert(keys.contains(q));
                    }
                }
                if q == k {
                    assert(after[p as int] == q);
                } else if keys.contains(q) {
                    let a = keys.index_of(q);
                    assert(keys[a] == q);
                    let i = if a < p {
                        a
                    } else {
                        a + step
                    };
                    assert(after[i] == q);
                }
            }
            assert forall|q: Seq<char>| self@.dom().contains(q) implies self@[q] == want[q] by {
                let i = self.lemma_found(q);
                self.lemma_at(i);
                if i != p {
                    let a = i - (if i > p { step } else { 0 });
                    assert(before[a].0@ == q);
                    assert(keys[a] == q);
                    assert(q != k) by {
                        if q == k {
                            lemma_in_order_distinct(after, i, p as int);
                        }
                    }
                    old(self).lemma_at(a);
                }
            }
            assert(self@ =~= want);
        }
    }

    /// Takes a key out of the map.
    pub fn remove(&mut self, key: &str)
        requires
            old(self).wf(),
        ensures
            final(self).wf(),
            final(self)@ == old(self)@.remove(key@),
    {
        let p: usize = self.position(key);
        let ghost before = self.items@;
        let ghost keys = keys_of(before);
        assert(keys == self.keys());
        let found: bool = p < self.items.len() && text::same(self.items[p].0.as_str(), key);
        if found {
            self.items.remove(p);
        }
        proof {
            let after = keys_of(self.items@);
            if found {
                assert forall|i: int| 0 <= i < after.len() implies #[trigger] after[i] == (if i
                    < p {
                    keys[i]
                } else {
                    keys[i + 1]
                }) by {}
                assert forall|i: int, j: int| 0 <= i < j < after.len() implies text::precedes(
                    #[trigger] after[i],
                    #[trigger] after[j],
                ) by {
                    let a = if i < p {
                        i
                    } else {
                        i + 1
                    };
                    let b = if j < p {
                        j
                    } else {
                        j + 1
                    };
                    assert(text::precedes(keys[a], keys[b]));
                }
            }
            assert(self.wf());
            let want = old(self)@.remove(key@);
            assert forall|q: Seq<char>| self@.dom().contains(q) == want.dom().contains(q) by {
                if self@.dom().contains(q) {
                    let i = self.lemma_found(q);
                    let a = if found && i >= p {
                        i + 1
                    } else {
                        i
                    };
                    assert(keys[a] == q);
                    assert(keys.contains(q));
                    if q == key@ {
                        if found {
                            lemma_in_order_distinct(keys, a, p as int);
                        } else {
                            text::lemma_precedes_irreflexive(q);
                            if a > p {
                                text::lemma_precedes_total(keys[p as int], q);
                                assert(text::precedes(keys[p as int], keys[a]));
                            }
                        }
                    }
                }
                if want.dom().contains(q) {
                    let a = old(self).lemma_found(q);
                    let i = if found && a > p {
                        a - 1
                    } else {
                        a
                    };
                    assert(keys[a] == q);
                    assert(after[i] == q);
                }
            }
            assert forall|q: Seq<char>| self@.dom().contains(q) implies self@[q] == want[q] by {
                let i = self.lemma_found(q);
                self.lemma_at(i);
                let a = if found && i >= p {
                    i + 1
                } else {
                    i
                };
                assert(before[a] == self.items@[i]);
                old(self).lemma_at(a);
                assert(want.dom().contains(q));
                assert(q != key@);
            }
            assert(self@ =~= want);
        }
    }

    /// The values, in the order of their keys.
    pub fn into_values(self) -> (r: Vec<V>)
        ensures
            r@.len() == self.items@.len(),
            forall|i: int| 0 <= i < r@.len() ==> #[trigger] r@[i] == self.items@[i].1,
    {
        let mut items = self.items;
        let ghost all = items@;
        let n: usize = items.len();
        let mut back: Vec<V> = Vec::new();
        while items.len() > 0
            invariant
                items@.len() <= n == all.len(),
                forall|i: int| 0 <= i < items@.len() ==> #[trigger] items@[i] == all[i],
                back@.len() == n - items@.len(),
                forall|i: int| 0 <= i < back@.len() ==> #[trigger] back@[i] == all[n - 1 - i].1,
            decreases items@.len(),
        {
            match items.pop() {
                Some((_, v)) => {
                    back.push(v);
                },
                None => {},
            }
        }
        let mut out: Vec<V> = Vec::new();
        while back.len() > 0
            invariant
                back@.len() <= n == all.len(),
                forall|i: int| 0 <= i < back@.len() ==> #[trigger] back@[i] == all[n - 1 - i].1,
                out@.len() == n - back@.len(),
                forall|i: int| 0 <= i < out@.len() ==> #[trigger] out@[i] == all[i].1,
            decreases back@.len(),
        {
            match back.pop() {
                Some(v) => {
                    out.push(v);
                },
                None => {},
            }
        }
        out
    }
}

} // verus!
