//! Which tensors are measured together.
use vstd::prelude::*;
use crate::gguf::geometry;
use crate::gguf::geometry::is_float_type;
use crate::gguf::reader::TensorInfo;
use crate::inspect;
use crate::inspect::bytes_of;
use crate::ir;
use crate::ir::{ModelLayout, TensorTag};
use crate::names;
use crate::names::NameMap;
use crate::safetensors::sharded::key_list;
use crate::sensitivity;
use crate::sensitivity::Grouping;
use crate::text;

verus! {

/// Tensors that are measured together.
#[derive(Debug)]
pub struct Group {
    pub key: String,
    pub role: String,
    /// The places of the tensors in the file.
    pub members: Vec<usize>,
    /// The bytes that the tensors take in the file.
    pub source_bytes: u64,
}

/// Why nothing can be measured.
#[derive(Debug, Clone, Copy, PartialEq, Eq, Structural)]
pub enum GroupError {
    /// No tensor of floats that may be quantized and has one of the roles.
    Empty,
    /// The bytes of a group do not fit in 64 bits.
    TooLarge,
}

/// A role is asked for: one of those named, or any where none are.
pub open spec fn asked_for(roles: Option<Seq<Seq<char>>>, label: Seq<char>) -> bool {
    match roles {
        None => true,
        Some(list) => list.contains(label),
    }
}

/// The group of the tensor `i`; none for a tensor that is not measured.
pub open spec fn group_at(
    tensors: Seq<TensorInfo>,
    n_layers: u32,
    grouping: Grouping,
    scaled: Seq<usize>,
    roles: Option<Seq<Seq<char>>>,
    i: int,
) -> Option<Seq<char>> {
    let tag = ir::tag_of(tensors[i].name@, n_layers);
    if tag.quantizable && geometry::is_float(tensors[i].ggml_type) && asked_for(
        roles,
        tag.role.label_of(),
    ) {
        Some(sensitivity::group_key(grouping, tag, scaled[i], tensors[i].name@))
    } else {
        None
    }
}

/// The groups of all tensors.
pub open spec fn groups_of(
    tensors: Seq<TensorInfo>,
    n_layers: u32,
    grouping: Grouping,
    scaled: Seq<usize>,
    roles: Option<Seq<Seq<char>>>,
) -> Seq<Option<Seq<char>>> {
    Seq::new(tensors.len(), |i: int| group_at(tensors, n_layers, grouping, scaled, roles, i))
}

/// The places of the first `n` tensors that belong to this group.
pub open spec fn members_of(keys: Seq<Option<Seq<char>>>, key: Seq<char>, n: int) -> Seq<usize>
    decreases n,
{
    if n <= 0 {
        Seq::empty()
    } else if keys[n - 1] == Some(key) {
        members_of(keys, key, n - 1).push((n - 1) as usize)
    } else {
        members_of(keys, key, n - 1)
    }
}

/// The bytes of these tensors.
pub open spec fn members_bytes(tensors: Seq<TensorInfo>, members: Seq<usize>) -> nat
    decreases members.len(),
{
    if members.len() == 0 {
        0
    } else {
        members_bytes(tensors, members.drop_last()) + inspect::size_or_zero(
            tensors[members.last() as int],
        ) as nat
    }
}

/// The groups with their members, in the order of their keys.
pub open spec fn are_groups(
    tensors: Seq<TensorInfo>,
    n_layers: u32,
    keys: Seq<Option<Seq<char>>>,
    v: Seq<Group>,
) -> bool {
    &&& names::in_order(Seq::new(v.len(), |i: int| v[i].key@))
    &&& forall|i: int|
        0 <= i < v.len() ==> {
            let g = #[trigger] v[i];
            &&& g.members@ == members_of(keys, g.key@, keys.len() as int)
            &&& g.members@.len() > 0
            &&& g.members@[0] < tensors.len()
            &&& g.role@ == ir::tag_of(
                tensors[g.members@[0] as int].name@,
                n_layers,
            ).role.label_of()
            &&& g.source_bytes == members_bytes(tensors, g.members@)
        }
    &&& forall|k: int|
        0 <= k < keys.len() && (#[trigger] keys[k]) is Some ==> exists|i: int|
            0 <= i < v.len() && Some((#[trigger] v[i]).key@) == keys[k]
}

/// Whether a role is asked for.
fn is_asked_for(roles: &Option<Vec<String>>, label: &str) -> (r: bool)
    ensures
        r == asked_for(role_models(*roles), label@),
{
    match roles {
        None => true,
        Some(list) => {
            let n: usize = list.len();
            let mut i: usize = 0;
            while i < n
                invariant
                    i <= n == list@.len(),
                    *roles == Some(*list),
                    forall|j: int| 0 <= j < i ==> (#[trigger] list@[j])@ != label@,
                decreases n - i,
            {
                if text::same(list[i].as_str(), label) {
                    assert(text::text_models(list@)[i as int] == label@);
                    return true;
                }
                i = i + 1;
            }
            proof {
                if text::text_models(list@).contains(label@) {
                    let j = choose|j: int|
                        0 <= j < list@.len() && text::text_models(list@)[j] == label@;
                    assert(list@[j]@ != label@);
                }
            }
            false
        },
    }
}

/// Roles that may be missing.
pub open spec fn role_models(roles: Option<Vec<String>>) -> Option<Seq<Seq<char>>> {
    match roles {
        None => None,
        Some(v) => Some(text::text_models(v@)),
    }
}

/// A text that may be missing.
pub open spec fn key_models(keys: Seq<Option<String>>) -> Seq<Option<Seq<char>>> {
    Seq::new(
        keys.len(),
        |i: int|
            match keys[i] {
                Some(s) => Some(s@),
                None => None,
            },
    )
}

/// The groups of all tensors.
fn tensor_keys(
    tensors: &[TensorInfo],
    layout: &ModelLayout,
    grouping: Grouping,
    scaled: &[usize],
    roles: &Option<Vec<String>>,
) -> (r: Vec<Option<String>>)
    requires
        scaled@.len() == tensors@.len(),
    ensures
        key_models(r@) == groups_of(
            tensors@,
            layout.n_layers,
            grouping,
            scaled@,
            role_models(*roles),
        ),
{
    let ghost all = groups_of(tensors@, layout.n_layers, grouping, scaled@, role_models(*roles));
    let n: usize = tensors.len();
    let mut out: Vec<Option<String>> = Vec::new();
    let mut i: usize = 0;
    while i < n
        invariant
            i <= n == tensors@.len() == scaled@.len(),
            all == groups_of(tensors@, layout.n_layers, grouping, scaled@, role_models(*roles)),
            out@.len() == i,
            forall|j: int| 0 <= j < i ==> #[trigger] key_models(out@)[j] == all[j],
        decreases n - i,
    {
        let ghost had = out@;
        let t = &tensors[i];
        let tag = TensorTag::tag(t.name.as_str(), layout);
        if tag.quantizable && is_float_type(t.ggml_type) && is_asked_for(roles, tag.role.label()) {
            out.push(Some(grouping.key(&tag, scaled[i], t.name.as_str())));
        } else {
            out.push(None);
        }
        assert forall|j: int| 0 <= j < i + 1 implies #[trigger] key_models(out@)[j] == all[j] by {
            if j < i {
                assert(key_models(had)[j] == all[j]);
                assert(out@[j] == had[j]);
            }
        }
        i = i + 1;
    }
    assert(key_models(out@) =~= all);
    out
}

/// The groups that occur, in order.
fn distinct_keys(keys: &[Option<String>]) -> (r: NameMap<()>)
    ensures
        r.wf(),
        forall|k: Seq<char>| #[trigger]
            r@.dom().contains(k) <==> key_models(keys@).contains(Some(k)),
{
    let ghost all = key_models(keys@);
    let n: usize = keys.len();
    let mut m: NameMap<()> = NameMap::new();
    let mut i: usize = 0;
    while i < n
        invariant
            i <= n == keys@.len(),
            all == key_models(keys@),
            m.wf(),
            forall|k: Seq<char>| #[trigger]
                m@.dom().contains(k) <==> all.subrange(0, i as int).contains(Some(k)),
        decreases n - i,
    {
        let ghost had = all.subrange(0, i as int);
        let ghost longer = all.subrange(0, i + 1);
        let ghost before = m@;
        match &keys[i] {
            Some(s) => {
                m.insert(s.clone(), ());
            },
            None => {},
        }
        proof {
            assert(longer =~= had.push(all[i as int]));
            assert forall|k: Seq<char>| #[trigger] m@.dom().contains(k) <==> longer.contains(
                Some(k),
            ) by {
                if longer.contains(Some(k)) {
                    let j = choose|j: int| 0 <= j < longer.len() && longer[j] == Some(k);
                    if j < i {
                        assert(had[j] == Some(k));
                        assert(before.dom().contains(k));
                    }
                }
                if before.dom().contains(k) {
                    let j = choose|j: int| 0 <= j < had.len() && had[j] == Some(k);
                    assert(longer[j] == Some(k));
                }
                if all[i as int] == Some(k) {
                    assert(longer[i as int] == Some(k));
                }
            }
        }
        i = i + 1;
    }
    assert(all.subrange(0, n as int) =~= all);
    m
}

/// Members are places of tensors of the group.
pub proof fn lemma_members(keys: Seq<Option<Seq<char>>>, key: Seq<char>, n: int)
    requires
        0 <= n <= keys.len() <= usize::MAX,
    ensures
        forall|j: int|
            0 <= j < members_of(keys, key, n).len() ==> (#[trigger] members_of(keys, key, n)[j])
                < n && keys[members_of(keys, key, n)[j] as int] == Some(key),
        forall|i: int, j: int|
            0 <= i < j < members_of(keys, key, n).len() ==> (#[trigger] members_of(
                keys,
                key,
                n,
            )[i]) < (#[trigger] members_of(keys, key, n)[j]),
        forall|k: int|
            0 <= k < n && #[trigger] keys[k] == Some(key) ==> members_of(keys, key, n).contains(
                k as usize,
            ),
    decreases n,
{
    if n > 0 {
        lemma_members(keys, key, n - 1);
        let before = members_of(keys, key, n - 1);
        let now = members_of(keys, key, n);
        assert forall|k: int| 0 <= k < n && #[trigger] keys[k] == Some(key) implies now.contains(
            k as usize,
        ) by {
            if k < n - 1 {
                let j = choose|j: int| 0 <= j < before.len() && before[j] == k as usize;
                assert(now[j] == k as usize);
            } else {
                assert(now[now.len() - 1] == k as usize);
            }
        }
    }
}

/// The members of a group and the bytes they take; none where these do not fit in 64 bits.
fn collect(tensors: &[TensorInfo], keys: &[Option<String>], key: &str) -> (r: (Vec<usize>, Option<u64>))
    requires
        keys@.len() == tensors@.len(),
    ensures
        r.0@ == members_of(key_models(keys@), key@, keys@.len() as int),
        match r.1 {
            Some(b) => b == members_bytes(tensors@, r.0@),
            None => members_bytes(tensors@, r.0@) > u64::MAX,
        },
{
    let ghost all = key_models(keys@);
    let n: usize = keys.len();
    let mut members: Vec<usize> = Vec::new();
    let mut bytes: Option<u64> = Some(0);
    let mut i: usize = 0;
    while i < n
        invariant
            i <= n == keys@.len() == tensors@.len(),
            all == key_models(keys@),
            members@ == members_of(all, key@, i as int),
            match bytes {
                Some(b) => b == members_bytes(tensors@, members@),
                None => members_bytes(tensors@, members@) > u64::MAX,
            },
        decreases n - i,
    {
        let ghost had = members@;
        let same: bool = match &keys[i] {
            Some(s) => text::same(s.as_str(), key),
            None => false,
        };
        assert(same == (all[i as int] == Some(key@)));
        if same {
            members.push(i);
            assert(members@.drop_last() =~= had);
            let size: u64 = bytes_of(&tensors[i]);
            bytes =
            match bytes {
                Some(b) => b.checked_add(size),
                None => None,
            };
        }
        i = i + 1;
    }
    (members, bytes)
}

/// The groups of a file. `scaled` has for each tensor its depth times the number of parts of the
/// depth, without its fraction.
pub fn build_groups(
    tensors: &[TensorInfo],
    layout: &ModelLayout,
    grouping: Grouping,
    scaled: &[usize],
    roles: &Option<Vec<String>>,
) -> (r: Result<Vec<Group>, GroupError>)
    requires
        scaled@.len() == tensors@.len(),
    ensures
        ({
            let keys = groups_of(
                tensors@,
                layout.n_layers,
                grouping,
                scaled@,
                role_models(*roles),
            );
            match r {
                Err(GroupError::Empty) => forall|i: int|
                    0 <= i < keys.len() ==> #[trigger] keys[i] is None,
                Err(GroupError::TooLarge) => exists|key: Seq<char>|
                    keys.contains(Some(key)) && members_bytes(
                        tensors@,
                        #[trigger] members_of(keys, key, keys.len() as int),
                    ) > u64::MAX,
                Ok(v) => v@.len() > 0 && are_groups(tensors@, layout.n_layers, keys, v@),
            }
        }),
{
    let found = tensor_keys(tensors, layout, grouping, scaled, roles);
    let ghost keys = groups_of(
        tensors@,
        layout.n_layers,
        grouping,
        scaled@,
        role_models(*roles),
    );
    assert(found@.len() == key_models(found@).len());
    let set = distinct_keys(found.as_slice());
    let list = key_list(&set);
    let n: usize = list.len();
    let total: usize = tensors.len();
    if n == 0 {
        proof {
            assert forall|i: int| 0 <= i < keys.len() implies #[trigger] keys[i] is None by {
                if let Some(k) = keys[i] {
                    assert(keys.contains(Some(k)));
                    assert(set@.dom().contains(k));
                    let j = set.lemma_found(k);
                }
            }
        }
        return Err(GroupError::Empty);
    }
    let mut out: Vec<Group> = Vec::new();
    let mut i: usize = 0;
    while i < n
        invariant
            i <= n == list@.len() == set.keys().len(),
            total == tensors@.len(),
            set.wf(),
            keys == groups_of(
                tensors@,
                layout.n_layers,
                grouping,
                scaled@,
                role_models(*roles),
            ),
            keys == key_models(found@),
            keys.len() == tensors@.len() == found@.len(),
            forall|k: Seq<char>| #[trigger]
                set@.dom().contains(k) <==> keys.contains(Some(k)),
            forall|j: int| 0 <= j < n ==> (#[trigger] list@[j])@ == set.keys()[j],
            out@.len() == i,
            forall|j: int|
                0 <= j < i ==> {
                    let g = #[trigger] out@[j];
                    &&& g.key@ == set.keys()[j]
                    &&& g.members@ == members_of(keys, g.key@, keys.len() as int)
                    &&& g.members@.len() > 0
                    &&& g.members@[0] < tensors@.len()
                    &&& g.role@ == ir::tag_of(
                        tensors@[g.members@[0] as int].name@,
                        layout.n_layers,
                    ).role.label_of()
                    &&& g.source_bytes == members_bytes(tensors@, g.members@)
                },
        decreases n - i,
    {
        let key = list[i].clone();
        let (members, bytes) = collect(tensors, found.as_slice(), key.as_str());
        proof {
            set.lemma_at(i as int);
            assert(set@.dom().contains(key@));
            assert(keys.contains(Some(key@)));
            lemma_members(keys, key@, keys.len() as int);
            let k = choose|k: int| 0 <= k < keys.len() && keys[k] == Some(key@);
            assert(members@.contains(k as usize));
        }
        let source_bytes: u64 = match bytes {
            Some(b) => b,
            None => {
                proof {
                    assert(members@ == members_of(keys, key@, keys.len() as int));
                }
                return Err(GroupError::TooLarge);
            },
        };
        let tag = TensorTag::tag(tensors[members[0]].name.as_str(), layout);
        out.push(Group { key, role: tag.role.label().to_owned(), members, source_bytes });
        i = i + 1;
    }
    proof {
        let names = Seq::new(out@.len(), |i: int| out@[i].key@);
        assert(names =~= set.keys());
        assert forall|k: int| 0 <= k < keys.len() && (#[trigger] keys[k]) is Some implies exists|
            i: int,
        | 0 <= i < out@.len() && Some((#[trigger] out@[i]).key@) == keys[k] by {
            let key = keys[k]->0;
            assert(keys.contains(Some(key)));
            assert(set@.dom().contains(key));
            let j = set.lemma_found(key);
            assert(out@[j].key@ == key);
        }
    }
    Ok(out)
}

/// Every measured tensor belongs to exactly one group.
pub proof fn law_groups_partition(
    tensors: Seq<TensorInfo>,
    n_layers: u32,
    keys: Seq<Option<Seq<char>>>,
    v: Seq<Group>,
    k: int,
)
    requires
        are_groups(tensors, n_layers, keys, v),
        keys.len() <= usize::MAX,
        0 <= k < keys.len(),
    ensures
        keys[k] is Some <==> exists|i: int|
            0 <= i < v.len() && (#[trigger] v[i]).members@.contains(k as usize),
        forall|i: int, j: int|
            0 <= i < v.len() && 0 <= j < v.len() && (#[trigger] v[i]).members@.contains(k as usize)
                && (#[trigger] v[j]).members@.contains(k as usize) ==> i == j,
{
    assert forall|i: int|
        0 <= i < v.len() && (#[trigger] v[i]).members@.contains(k as usize) implies keys[k]
        == Some(v[i].key@) by {
        lemma_members(keys, v[i].key@, keys.len() as int);
        let m = v[i].members@;
        let x = choose|x: int| 0 <= x < m.len() && m[x] == k as usize;
        assert(keys[m[x] as int] == Some(v[i].key@));
    }
    if keys[k] is Some {
        let i = choose|i: int| 0 <= i < v.len() && Some((#[trigger] v[i]).key@) == keys[k];
        lemma_members(keys, v[i].key@, keys.len() as int);
        assert(v[i].members@.contains(k as usize));
    }
    assert forall|i: int, j: int|
        0 <= i < v.len() && 0 <= j < v.len() && (#[trigger] v[i]).members@.contains(k as usize) && (
        #[trigger] v[j]).members@.contains(k as usize) implies i == j by {
        let names = Seq::new(v.len(), |i: int| v[i].key@);
        assert(names[i] == names[j]);
        if i != j {
            names::lemma_in_order_distinct(names, i, j);
        }
    }
}

} // verus!
