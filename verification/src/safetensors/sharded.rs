//! A model split over several safetensors files.
use vstd::prelude::*;
use crate::json;
use crate::json::{Json, JsonModel};
use crate::names;
use crate::names::NameMap;
use crate::safetensors;
use crate::safetensors::{SafeTensors, StEntry, StError, StErrorKind};

verus! {

/// Several files taken as one; of two tensors with one name the one in the later file.
#[derive(Debug)]
pub struct ShardedSafeTensors<'a> {
    pub shards: Vec<SafeTensors<'a>>,
    /// The index of the file that holds a tensor.
    pub map: NameMap<usize>,
}

/// The last of the files that holds a tensor of this name.
pub open spec fn last_holder(shards: Seq<SafeTensors<'_>>, name: Seq<char>) -> Option<int>
    decreases shards.len(),
{
    if shards.len() == 0 {
        None
    } else if shards.last().entries@.dom().contains(name) {
        Some(shards.len() - 1)
    } else {
        last_holder(shards.drop_last(), name)
    }
}

/// The file that is named is one of the files and holds the tensor.
pub proof fn lemma_last_holder(shards: Seq<SafeTensors<'_>>, name: Seq<char>)
    ensures
        match last_holder(shards, name) {
            Some(i) => 0 <= i < shards.len() && shards[i].entries@.dom().contains(name)
                && forall|j: int|
                i < j < shards.len() ==> !(#[trigger] shards[j]).entries@.dom().contains(name),
            None => forall|j: int|
                0 <= j < shards.len() ==> !(#[trigger] shards[j]).entries@.dom().contains(name),
        },
    decreases shards.len(),
{
    if shards.len() > 0 && !shards.last().entries@.dom().contains(name) {
        lemma_last_holder(shards.drop_last(), name);
        let before = shards.drop_last();
        assert forall|j: int|
            0 <= j < shards.len() && !(before.len() > j && before[j].entries@.dom().contains(
                name,
            )) implies !(#[trigger] shards[j]).entries@.dom().contains(name) by {
            if j < shards.len() - 1 {
                assert(before[j] == shards[j]);
            }
        }
        match last_holder(before, name) {
            Some(i) => {
                assert(before[i] == shards[i]);
                assert forall|j: int| i < j < shards.len() implies !(
                #[trigger] shards[j]).entries@.dom().contains(name) by {
                    if j < shards.len() - 1 {
                        assert(before[j] == shards[j]);
                    }
                }
            },
            None => {
                assert forall|j: int| 0 <= j < shards.len() implies !(
                #[trigger] shards[j]).entries@.dom().contains(name) by {
                    if j < shards.len() - 1 {
                        assert(before[j] == shards[j]);
                    }
                }
            },
        }
    }
}

/// The map says of every name what [`last_holder`] says.
pub open spec fn maps_names(map: Map<Seq<char>, usize>, shards: Seq<SafeTensors<'_>>) -> bool {
    &&& forall|k: Seq<char>|
        #![trigger map.dom().contains(k)]
        map.dom().contains(k) == last_holder(shards, k) is Some
    &&& forall|k: Seq<char>|
        #![trigger map[k]]
        map.dom().contains(k) ==> last_holder(shards, k) == Some(map[k] as int)
}

/// The strings among the members of an object.
pub open spec fn file_names(pairs: Seq<(Seq<char>, JsonModel)>) -> Set<Seq<char>>
    decreases pairs.len(),
{
    if pairs.len() == 0 {
        Set::empty()
    } else {
        match pairs.last().1.text() {
            Some(s) => file_names(pairs.drop_last()).insert(s),
            None => file_names(pairs.drop_last()),
        }
    }
}

/// The files that an index names under `weight_map`, in order and each once; none where the index
/// has no such object.
pub fn shard_files(index: &Json) -> (r: Option<Vec<String>>)
    ensures
        match index@.get("weight_map"@) {
            Some(JsonModel::Object(pairs)) => r matches Some(v) && ({
                let keys = Seq::new(v@.len(), |i: int| v@[i]@);
                names::in_order(keys) && keys.to_set() == file_names(pairs)
            }),
            _ => r is None,
        },
{
    let pairs = match index.get("weight_map") {
        Some(Json::Object(p)) => p,
        _ => return None,
    };
    let ghost m = json::pairs_model(pairs@);
    proof {
        json::lemma_pairs_model(pairs@);
    }
    let mut seen: NameMap<()> = NameMap::new();
    let n: usize = pairs.len();
    let mut i: usize = 0;
    assert(seen@.dom() =~= file_names(m.subrange(0, 0)));
    while i < n
        invariant
            i <= n == pairs@.len(),
            m == json::pairs_model(pairs@),
            m.len() == n,
            forall|j: int| 0 <= j < n ==> #[trigger] m[j] == (pairs@[j].0@, pairs@[j].1@),
            seen.wf(),
            seen@.dom() == file_names(m.subrange(0, i as int)),
        decreases n - i,
    {
        let ghost longer = m.subrange(0, i + 1);
        assert(longer.drop_last() =~= m.subrange(0, i as int));
        assert(longer.last() == m[i as int]);
        match pairs[i].1.as_str() {
            Some(s) => {
                seen.insert(s.to_owned(), ());
            },
            None => {},
        }
        assert(seen@.dom() =~= file_names(longer));
        i = i + 1;
    }
    assert(m.subrange(0, n as int) =~= m);
    let out = key_list(&seen);
    proof {
        let keys = Seq::new(out@.len(), |i: int| out@[i]@);
        assert(keys =~= seen.keys());
        assert(keys.to_set() =~= seen@.dom());
    }
    Some(out)
}

/// The keys of a map, in order.
pub fn key_list<V>(map: &NameMap<V>) -> (r: Vec<String>)
    ensures
        r@.len() == map.keys().len(),
        forall|i: int| 0 <= i < r@.len() ==> (#[trigger] r@[i])@ == map.keys()[i],
{
    let mut out: Vec<String> = Vec::new();
    let n: usize = map.len();
    let mut i: usize = 0;
    while i < n
        invariant
            i <= n == map.items@.len(),
            out@.len() == i,
            forall|j: int| 0 <= j < i ==> (#[trigger] out@[j])@ == map.keys()[j],
        decreases n - i,
    {
        out.push(map.items[i].0.clone());
        i = i + 1;
    }
    out
}

impl<'a> ShardedSafeTensors<'a> {
    /// Every file is well formed, and the map names for each tensor the file that holds it.
    pub open spec fn wf(&self) -> bool {
        &&& self.map.wf()
        &&& forall|i: int| 0 <= i < self.shards@.len() ==> (#[trigger] self.shards@[i]).wf()
        &&& maps_names(self.map@, self.shards@)
    }

    /// Takes files as one, in the order in which they are given.
    pub fn from_shards(shards: Vec<SafeTensors<'a>>) -> (r: ShardedSafeTensors<'a>)
        requires
            forall|i: int| 0 <= i < shards@.len() ==> (#[trigger] shards@[i]).wf(),
        ensures
            r.wf(),
            r.shards@ == shards@,
    {
        let mut map: NameMap<usize> = NameMap::new();
        let n: usize = shards.len();
        let mut i: usize = 0;
        while i < n
            invariant
                i <= n == shards@.len(),
                forall|j: int| 0 <= j < n ==> (#[trigger] shards@[j]).wf(),
                map.wf(),
                maps_names(map@, shards@.subrange(0, i as int)),
            decreases n - i,
        {
            let ghost before = map@;
            let ghost had = shards@.subrange(0, i as int);
            let ghost longer = shards@.subrange(0, i + 1);
            assert(longer.drop_last() =~= had);
            assert(longer.last() == shards@[i as int]);
            let entries = &shards[i].entries;
            let m: usize = entries.len();
            let mut j: usize = 0;
            assert(shards@[i as int].wf());
            while j < m
                invariant
                    j <= m == entries.items@.len(),
                    i < n == shards@.len(),
                    *entries == shards@[i as int].entries,
                    entries.wf(),
                    map.wf(),
                    forall|k: Seq<char>|
                        #![trigger map@.dom().contains(k)]
                        map@.dom().contains(k) == (before.dom().contains(k)
                            || entries.keys().subrange(0, j as int).contains(k)),
                    forall|k: Seq<char>|
                        #![trigger map@[k]]
                        map@.dom().contains(k) ==> map@[k] == if entries.keys().subrange(
                            0,
                            j as int,
                        ).contains(k) {
                            i
                        } else {
                            before[k]
                        },
                decreases m - j,
            {
                let ghost done = entries.keys().subrange(0, j as int);
                let ghost next = entries.keys().subrange(0, j + 1);
                let ghost key = entries.keys()[j as int];
                assert(next =~= done.push(key));
                assert forall|k: Seq<char>| #[trigger] next.contains(k) == (done.contains(k) || k
                    == key) by {
                    if done.contains(k) {
                        let x = choose|x: int| 0 <= x < done.len() && done[x] == k;
                        assert(next[x] == k);
                    }
                    if k == key {
                        assert(next[j as int] == k);
                    }
                }
                map.insert(entries.items[j].0.clone(), i);
                j = j + 1;
            }
            proof {
                assert(entries.keys().subrange(0, m as int) =~= entries.keys());
                assert forall|k: Seq<char>|
                    #![trigger map@.dom().contains(k)]
                    map@.dom().contains(k) == last_holder(longer, k) is Some by {
                    assert(longer.last().entries@.dom().contains(k) == entries.keys().contains(k));
                    assert(before.dom().contains(k) == last_holder(had, k) is Some);
                }
                assert forall|k: Seq<char>|
                    #![trigger map@[k]]
                    map@.dom().contains(k) implies last_holder(longer, k) == Some(
                    map@[k] as int,
                ) by {
                    assert(longer.last().entries@.dom().contains(k) == entries.keys().contains(k));
                    if !entries.keys().contains(k) {
                        assert(before.dom().contains(k));
                        assert(last_holder(had, k) == Some(before[k] as int));
                    }
                }
            }
            i = i + 1;
        }
        assert(shards@.subrange(0, n as int) =~= shards@);
        ShardedSafeTensors { shards, map }
    }

    /// The names of the tensors, in order.
    pub fn names(&self) -> (r: Vec<String>)
        ensures
            r@.len() == self.map.keys().len(),
            forall|i: int| 0 <= i < r@.len() ==> (#[trigger] r@[i])@ == self.map.keys()[i],
    {
        key_list(&self.map)
    }

    /// Whether some file holds a tensor of this name.
    pub fn contains(&self, name: &str) -> (r: bool)
        requires
            self.wf(),
        ensures
            r == (last_holder(self.shards@, name@) is Some),
    {
        self.map.contains(name)
    }

    /// The file that holds a tensor.
    pub fn shard_of(&self, name: &str) -> (r: Option<&SafeTensors<'a>>)
        requires
            self.wf(),
        ensures
            match r {
                Some(s) => last_holder(self.shards@, name@) matches Some(i) && *s
                    == self.shards@[i] && s.wf() && s.entries@.dom().contains(name@),
                None => last_holder(self.shards@, name@) is None,
            },
    {
        proof {
            lemma_last_holder(self.shards@, name@);
        }
        match self.map.get(name) {
            Some(i) => {
                assert(self.map@[name@] == *i);
                Some(&self.shards[*i])
            },
            None => None,
        }
    }

    /// The entry of a tensor.
    pub fn entry(&self, name: &str) -> (r: Option<&StEntry>)
        requires
            self.wf(),
        ensures
            match r {
                Some(e) => last_holder(self.shards@, name@) matches Some(i) && e@
                    == self.shards@[i]@.entries[name@],
                None => last_holder(self.shards@, name@) is None,
            },
    {
        match self.shard_of(name) {
            Some(s) => s.entry(name),
            None => None,
        }
    }

    /// The bytes of a tensor.
    pub fn bytes(&self, name: &str) -> (r: Result<&'a [u8], StError>)
        requires
            self.wf(),
        ensures
            match r {
                Ok(b) => last_holder(self.shards@, name@) matches Some(i) && b@
                    == self.shards@[i].range(self.shards@[i]@.entries[name@]),
                Err(e) => last_holder(self.shards@, name@) is None && e.tensor@ == name@ && e.kind
                    == StErrorKind::NoSuchTensor,
            },
    {
        match self.shard_of(name) {
            Some(s) => s.bytes(name),
            None => Err(StError { tensor: name.to_owned(), kind: StErrorKind::NoSuchTensor }),
        }
    }

    /// The elements of a tensor of floats, as single-precision bits.
    pub fn to_f32(&self, name: &str) -> (r: Result<Vec<u32>, StError>)
        requires
            self.wf(),
        ensures
            match last_holder(self.shards@, name@) {
                None => r matches Err(e) && e.tensor@ == name@ && e.kind
                    == StErrorKind::NoSuchTensor,
                Some(i) => {
                    let m = self.shards@[i]@.entries[name@];
                    if !m.dtype.floating() {
                        r matches Err(e) && e.tensor@ == name@ && e.kind == StErrorKind::NotFloat(
                            m.dtype,
                        )
                    } else {
                        r matches Ok(v) && safetensors::floats_of(
                            m.dtype,
                            self.shards@[i].range(m),
                            v@,
                        )
                    }
                },
            },
    {
        match self.shard_of(name) {
            Some(s) => s.to_f32(name),
            None => Err(StError { tensor: name.to_owned(), kind: StErrorKind::NoSuchTensor }),
        }
    }

    /// The first element of a tensor of floats.
    pub fn scalar_f32(&self, name: &str) -> (r: Result<u32, StError>)
        requires
            self.wf(),
        ensures
            match last_holder(self.shards@, name@) {
                None => r matches Err(e) && e.tensor@ == name@ && e.kind
                    == StErrorKind::NoSuchTensor,
                Some(i) => {
                    let m = self.shards@[i]@.entries[name@];
                    if !m.dtype.floating() {
                        r matches Err(e) && e.tensor@ == name@ && e.kind == StErrorKind::NotFloat(
                            m.dtype,
                        )
                    } else if self.shards@[i].range(m).len() < m.dtype.size_of() {
                        r matches Err(e) && e.tensor@ == name@ && e.kind == StErrorKind::Empty
                    } else {
                        r matches Ok(x) && safetensors::float_elem(
                            m.dtype,
                            self.shards@[i].range(m),
                            0,
                            x,
                        )
                    }
                },
            },
    {
        match self.shard_of(name) {
            Some(s) => s.scalar_f32(name),
            None => Err(StError { tensor: name.to_owned(), kind: StErrorKind::NoSuchTensor }),
        }
    }
}

} // verus!
