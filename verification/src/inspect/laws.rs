//! What a summary promises of the tensors that it sums up.
use vstd::prelude::*;
use crate::gguf::geometry;
use crate::gguf::geometry::TensorError;
use crate::gguf::reader;
use crate::gguf::reader::{tensor_nbytes, GgufReader, TensorInfo};
use crate::gguf::value::ValueModel;
use crate::inspect;
use crate::inspect::{bytes_of, context_length, summarize, truncate, Summary};
use crate::ir::TensorTag;
use crate::tally;

verus! {

/// The context is as long as the metadata say under the architecture's own key: any whole number
/// counts, nothing is told where the key is missing, and zero where its value is no whole number.
pub proof fn law_context_is_stated(
    file: &GgufReader<'_>,
    arch: &str,
    r: Option<u64>,
    v: Option<ValueModel>,
)
    requires
        call_ensures(context_length, (file, arch), r),
        v == reader::first_value(file@.kv, arch@ + ".context_length"@),
    ensures
        v is None <==> r is None,
        v matches Some(ValueModel::U32(x)) ==> r == Some(x as u64),
        v matches Some(ValueModel::U64(x)) ==> r == Some(x),
        v matches Some(ValueModel::I32(x)) ==> x >= 0 ==> r == Some(x as u64),
        v matches Some(ValueModel::I64(x)) ==> x >= 0 ==> r == Some(x as u64),
        v matches Some(ValueModel::Str(_)) ==> r == Some(0u64),
        v matches Some(ValueModel::F32(_)) ==> r == Some(0u64),
        v matches Some(ValueModel::Bool(_)) ==> r == Some(0u64),
{
}

/// A tensor takes the bytes of its elements in its type, and none where they cannot be told.
pub proof fn law_bytes_of_a_tensor(t: &TensorInfo, r: u64, own: Result<u64, TensorError>)
    requires
        call_ensures(bytes_of, (t,), r),
        call_ensures(tensor_nbytes, (t,), own),
    ensures
        r == match own {
            Ok(b) => b,
            Err(_) => 0,
        },
{
}

/// Every tensor is counted once, under the label of its role: one tensor more adds its bytes and its
/// elements to the totals and to its role, and leaves every other role as it was. Without tensors
/// there is nothing to count. There is no summary only where the elements of a tensor cannot be
/// counted.
pub proof fn law_summaries_add_up(
    a: &[TensorInfo],
    atags: &[TensorTag],
    b: &[TensorInfo],
    btags: &[TensorTag],
    t: TensorInfo,
    tag: TensorTag,
    x: Option<Summary>,
    y: Option<Summary>,
    bytes: u64,
    role: Seq<char>,
)
    requires
        a@.len() == atags@.len(),
        b@ == a@.push(t),
        btags@ == atags@.push(tag),
        call_ensures(summarize, (a, atags), x),
        call_ensures(summarize, (b, btags), y),
        call_ensures(bytes_of, (&t,), bytes),
    ensures
        y is Some <==> x is Some && geometry::elem_count(t.dims@) is Some,
        a@.len() == 0 ==> x is Some && x->0.total_bytes == 0 && x->0.total_elems == 0
            && !x->0.roles@.dom().contains(role),
        y is Some ==> {
            let (p, q) = (x->0, y->0);
            let elems = geometry::elem_count(t.dims@)->0;
            let key = tag.role.label_of();
            &&& q.total_bytes == p.total_bytes + bytes
            &&& q.total_elems == p.total_elems + elems
            &&& q.roles@.dom().contains(key)
            &&& role != key ==> (p.roles@.dom().contains(role) <==> q.roles@.dom().contains(role))
            &&& role != key && p.roles@.dom().contains(role) ==> p.roles@[role] == q.roles@[role]
            &&& p.roles@.dom().contains(key) ==> q.roles@[key].count == p.roles@[key].count + 1
                && q.roles@[key].first == p.roles@[key].first + bytes && q.roles@[key].second
                == p.roles@[key].second + elems
            &&& !p.roles@.dom().contains(key) ==> q.roles@[key].count == 1 && q.roles@[key].first
                == bytes && q.roles@[key].second == elems
        },
{
    assert(b@.drop_last() =~= a@);
    let (e, f) = (inspect::role_entries(a@, atags@), inspect::role_entries(b@, btags@));
    assert(f.drop_last() =~= e);
    assert(f.last() == inspect::role_entry(t, tag));
    tally::lemma_none_at(e, tag.role.label_of());
    tally::lemma_none_at(e, role);
    assert(b@[a@.len() as int] == t);
    if inspect::countable(b@) {
        assert forall|i: int| 0 <= i < a@.len() implies geometry::elem_count(
            (#[trigger] a@[i]).dims@,
        ) is Some by {
            assert(b@[i] == a@[i]);
        }
    }
    if inspect::countable(a@) && geometry::elem_count(t.dims@) is Some {
        assert forall|i: int| 0 <= i < b@.len() implies geometry::elem_count(
            (#[trigger] b@[i]).dims@,
        ) is Some by {
            if i < a@.len() {
                assert(b@[i] == a@[i]);
            }
        }
    }
}

/// A text that is cut is the front of itself, with so many bytes; a text that fits is not cut.
pub proof fn law_cut_texts(s: &str, n: usize, r: String)
    requires
        call_ensures(truncate, (s, n), r),
    ensures
        ({
            let (whole, cut) = (vstd::utf8::encode_utf8(s@), vstd::utf8::encode_utf8(r@));
            &&& cut.is_prefix_of(whole)
            &&& whole.len() <= n ==> cut == whole
            &&& whole.len() > n ==> cut.len() == n
        }),
{
    let whole = vstd::utf8::encode_utf8(s@);
    assert(whole.subrange(0, whole.len() as int) =~= whole);
    if whole.len() > n {
        assert(whole.take(n as int) =~= whole.subrange(0, n as int));
    }
}

} // verus!
