//! What a model file holds, summed up.
use vstd::prelude::*;
use vstd::utf8::*;
use crate::gguf::geometry;
use crate::gguf::geometry::count_elems;
use crate::gguf::reader;
use crate::gguf::reader::{tensor_nbytes, GgufReader, TensorInfo};
use crate::gguf::value::{GgufValue, ValueModel};
use crate::ir::TensorTag;
use crate::names::NameMap;
use crate::tally;
use crate::tally::{tally, Entry, EntryModel, Tally};
use crate::text::text_of_utf8;

pub mod laws;

verus! {

/// The bytes that a tensor takes, or none where they cannot be counted.
pub open spec fn size_or_zero(t: TensorInfo) -> u64 {
    match geometry::elem_count(t.dims@) {
        None => 0,
        Some(n) => match geometry::packed_size(t.ggml_type, n as nat) {
            Ok(b) => b,
            Err(_) => 0,
        },
    }
}

/// The bytes that a tensor takes; zero where they cannot be counted.
pub fn bytes_of(t: &TensorInfo) -> (r: u64)
    ensures
        r == size_or_zero(*t),
{
    match tensor_nbytes(t) {
        Ok(b) => b,
        Err(_) => 0,
    }
}

/// The length of the context that the metadata of an architecture state; zero where it is no whole
/// number, and a negative number as its unsigned pattern.
pub open spec fn context_of(kv: Seq<(Seq<char>, ValueModel)>, arch: Seq<char>) -> Option<u64> {
    match reader::first_value(kv, arch + ".context_length"@) {
        None => None,
        Some(v) => Some(
            match v {
                ValueModel::U32(x) => x as u64,
                ValueModel::U64(x) => x,
                ValueModel::I32(x) => if x >= 0 {
                    x as u64
                } else {
                    (0x1_0000_0000_0000_0000 + x) as u64
                },
                ValueModel::I64(x) => if x >= 0 {
                    x as u64
                } else {
                    (0x1_0000_0000_0000_0000 + x) as u64
                },
                _ => 0,
            },
        ),
    }
}

/// A signed number as its unsigned pattern.
fn pattern(x: i64) -> (r: u64)
    ensures
        r == if x >= 0 {
            x as int
        } else {
            0x1_0000_0000_0000_0000 + x
        },
{
    if x >= 0 {
        x as u64
    } else {
        u64::MAX - ((-(x + 1)) as u64)
    }
}

/// The length of the context that the metadata of an architecture state.
pub fn context_length(file: &GgufReader<'_>, arch: &str) -> (r: Option<u64>)
    ensures
        r == context_of(reader::kv_model(file.kv@), arch@),
{
    let mut key: String = arch.to_owned();
    key.append(".context_length");
    match file.get(key.as_str()) {
        None => None,
        Some(v) => Some(
            match v {
                GgufValue::U32(x) => *x as u64,
                GgufValue::U64(x) => *x,
                GgufValue::I32(x) => pattern(*x as i64),
                GgufValue::I64(x) => pattern(*x),
                _ => 0,
            },
        ),
    }
}

/// A tensor under its role, with its bytes and its elements.
pub open spec fn role_entry(t: TensorInfo, tag: TensorTag) -> EntryModel {
    EntryModel {
        key: tag.role.label_of(),
        first: size_or_zero(t) as nat,
        second: match geometry::elem_count(t.dims@) {
            Some(n) => n as nat,
            None => 0,
        },
    }
}

/// The tensors under their roles.
pub open spec fn role_entries(tensors: Seq<TensorInfo>, tags: Seq<TensorTag>) -> Seq<EntryModel> {
    Seq::new(tensors.len(), |i: int| role_entry(tensors[i], tags[i]))
}

/// The elements of every tensor can be counted.
pub open spec fn countable(tensors: Seq<TensorInfo>) -> bool {
    forall|i: int|
        0 <= i < tensors.len() ==> geometry::elem_count((#[trigger] tensors[i]).dims@) is Some
}

/// The sum of the first sizes of entries.
pub open spec fn first_total(entries: Seq<EntryModel>) -> nat
    decreases entries.len(),
{
    if entries.len() == 0 {
        0
    } else {
        first_total(entries.drop_last()) + entries.last().first
    }
}

/// The sum of the second sizes of entries.
pub open spec fn second_total(entries: Seq<EntryModel>) -> nat
    decreases entries.len(),
{
    if entries.len() == 0 {
        0
    } else {
        second_total(entries.drop_last()) + entries.last().second
    }
}

/// The bytes and the elements of all tensors, and of the tensors of each role.
#[derive(Debug)]
pub struct Summary {
    pub total_bytes: u128,
    pub total_elems: u128,
    pub roles: NameMap<Tally>,
}

/// Sums up tensors with these tags; none where the elements of a tensor do not fit in 64 bits.
pub fn summarize(tensors: &[TensorInfo], tags: &[TensorTag]) -> (r: Option<Summary>)
    requires
        tags@.len() == tensors@.len(),
    ensures
        match r {
            None => !countable(tensors@),
            Some(s) => {
                let entries = role_entries(tensors@, tags@);
                &&& countable(tensors@)
                &&& s.total_bytes == first_total(entries)
                &&& s.total_elems == second_total(entries)
                &&& s.roles.wf()
                &&& tally::tallied(s.roles@, entries)
            },
        },
{
    let ghost all = role_entries(tensors@, tags@);
    let n: usize = tensors.len();
    let mut entries: Vec<Entry> = Vec::new();
    let mut total_bytes: u128 = 0;
    let mut total_elems: u128 = 0;
    let mut i: usize = 0;
    while i < n
        invariant
            i <= n == tensors@.len() == tags@.len(),
            all == role_entries(tensors@, tags@),
            entries@.len() == i,
            forall|j: int| 0 <= j < i ==> (#[trigger] entries@[j])@ == all[j],
            forall|j: int|
                0 <= j < i ==> geometry::elem_count((#[trigger] tensors@[j]).dims@) is Some,
            total_bytes == first_total(all.subrange(0, i as int)),
            total_elems == second_total(all.subrange(0, i as int)),
            total_bytes <= i * u64::MAX,
            total_elems <= i * u64::MAX,
        decreases n - i,
    {
        let ghost longer = all.subrange(0, i + 1);
        proof {
            assert(longer.drop_last() =~= all.subrange(0, i as int));
            assert(longer.last() == all[i as int]);
            assert(i * u64::MAX + u64::MAX <= u128::MAX) by (nonlinear_arith)
                requires
                    i <= u64::MAX,
            ;
            assert((i + 1) * u64::MAX == i * u64::MAX + u64::MAX);
        }
        let elems: u64 = match count_elems(tensors[i].dims.as_slice()) {
            Some(e) => e,
            None => {
                assert(geometry::elem_count(tensors@[i as int].dims@) is None);
                return None;
            },
        };
        let bytes: u64 = bytes_of(&tensors[i]);
        entries.push(
            Entry { key: tags[i].role.label().to_owned(), first: bytes, second: elems },
        );
        total_bytes = total_bytes + bytes as u128;
        total_elems = total_elems + elems as u128;
        i = i + 1;
    }
    proof {
        assert(all.subrange(0, n as int) =~= all);
        assert(tally::entry_models(entries@) =~= all);
    }
    let roles = tally(entries.as_slice());
    Some(Summary { total_bytes, total_elems, roles })
}

/// The first `n` bytes of a text, where it has more.
pub fn truncate(s: &str, n: usize) -> (r: String)
    requires
        n < encode_utf8(s@).len() ==> is_char_boundary(encode_utf8(s@), n as int),
    ensures
        encode_utf8(r@) == if encode_utf8(s@).len() <= n {
            encode_utf8(s@)
        } else {
            encode_utf8(s@).take(n as int)
        },
{
    let b = s.as_bytes();
    let len: usize = b.len();
    if len <= n {
        return s.to_owned();
    }
    let head = vstd::slice::slice_subrange(b, 0, n);
    proof {
        encode_utf8_valid_utf8(s@);
        valid_utf8_split(b@, n as int);
        assert(head@ =~= b@.take(n as int));
        decode_utf8_encode_utf8(head@);
    }
    match text_of_utf8(head) {
        Some(t) => t,
        None => String::new(),
    }
}

} // verus!
