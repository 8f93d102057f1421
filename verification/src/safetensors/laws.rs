//! What a safetensors file promises of its tensors.
use vstd::prelude::*;
use crate::blockfloat::dequant;
use crate::bytes;
use crate::gguf::geometry;
use crate::gguf::geometry::count_elems;
use crate::json;
use crate::json::{Json, JsonModel};
use crate::names;
use crate::names::NameMap;
use crate::safetensors;
use crate::safetensors::load;
use crate::safetensors::load::{
    choose_scale, load_fp8_linear, load_nvfp4_linear, DequantizedLinear, LoadError, LoadErrorKind,
    TensorSource,
};
use crate::safetensors::sharded;
use crate::safetensors::sharded::{shard_files, ShardedSafeTensors};
use crate::safetensors::shards;
use crate::safetensors::shards::{index_json, partition, shard_filename, ShardItem};
use crate::safetensors::{
    read_entry, read_header, widen_floats, SafeTensors, StDtype, StEntry, StError, StErrorKind,
};
use crate::text;

verus! {

/// Every type has its name, its number of bytes for an element, and holds floats or does not.
pub proof fn law_types_by_name(
    d: StDtype,
    name: &'static str,
    size: usize,
    float: bool,
    s: &str,
    read: Option<StDtype>,
)
    requires
        call_ensures(StDtype::name, (d,), name),
        call_ensures(StDtype::size, (d,), size),
        call_ensures(StDtype::is_float, (d,), float),
        call_ensures(StDtype::parse, (s,), read),
    ensures
        d == StDtype::Bool ==> name@ == "BOOL"@ && size == 1 && !float,
        d == StDtype::U8 ==> name@ == "U8"@ && size == 1 && !float,
        d == StDtype::I8 ==> name@ == "I8"@ && size == 1 && !float,
        d == StDtype::F8E5M2 ==> name@ == "F8_E5M2"@ && size == 1 && float,
        d == StDtype::F8E4M3 ==> name@ == "F8_E4M3"@ && size == 1 && float,
        d == StDtype::I16 ==> name@ == "I16"@ && size == 2 && !float,
        d == StDtype::U16 ==> name@ == "U16"@ && size == 2 && !float,
        d == StDtype::F16 ==> name@ == "F16"@ && size == 2 && float,
        d == StDtype::BF16 ==> name@ == "BF16"@ && size == 2 && float,
        d == StDtype::I32 ==> name@ == "I32"@ && size == 4 && !float,
        d == StDtype::U32 ==> name@ == "U32"@ && size == 4 && !float,
        d == StDtype::F32 ==> name@ == "F32"@ && size == 4 && float,
        d == StDtype::F64 ==> name@ == "F64"@ && size == 8 && float,
        d == StDtype::I64 ==> name@ == "I64"@ && size == 8 && !float,
        d == StDtype::U64 ==> name@ == "U64"@ && size == 8 && !float,
        read == Some(d) <==> s@ == name@,
{
    safetensors::law_dtype_names(d);
    match read {
        Some(e) => safetensors::law_dtype_names(e),
        None => {},
    }
}

/// The items of a list are these numbers.
pub open spec fn lists_numbers(v: JsonModel, s: Seq<u64>) -> bool {
    v matches JsonModel::List(items) && items.len() == s.len() && forall|i: int|
        0 <= i < items.len() ==> (#[trigger] items[i]).uint() == Some(s[i])
}

/// The numbers in a list stand in their order.
proof fn lemma_uints(items: Seq<JsonModel>)
    ensures
        match safetensors::uints(items) {
            Some(s) => lists_numbers(JsonModel::List(items), s),
            None => exists|i: int| 0 <= i < items.len() && (#[trigger] items[i]).uint() is None,
        },
    decreases items.len(),
{
    if items.len() > 0 {
        let before = items.drop_last();
        lemma_uints(before);
        match safetensors::uints(before) {
            Some(s) => {
                if items.last().uint() is Some {
                    assert forall|i: int| 0 <= i < items.len() implies (#[trigger] items[i]).uint()
                        == Some(s.push(items.last().uint()->0)[i]) by {
                        if i < before.len() {
                            assert(before[i] == items[i]);
                        }
                    }
                } else {
                    assert(items[items.len() - 1].uint() is None);
                }
            },
            None => {
                let i = choose|i: int| 0 <= i < before.len() && (#[trigger] before[i]).uint() is None;
                assert(items[i].uint() is None);
            },
        }
    }
}

/// An entry has the name under which it stands, the type that `dtype` names, the dimensions that
/// `shape` lists and the range that `data_offsets` states, which lies inside the file; an offset that
/// is no number counts as zero. It is refused where one of them is missing or is something else.
pub proof fn law_entries_are_read_by_key(
    key: &str,
    v: &Json,
    blob: usize,
    r: Result<StEntry, StErrorKind>,
)
    requires
        call_ensures(read_entry, (key, v, blob), r),
    ensures
        r matches Ok(e) ==> {
            &&& e.name@ == key@
            &&& v@.get("dtype"@) matches Some(JsonModel::Text(t))
            &&& StDtype::named(t) == Some(e.dtype)
            &&& v@.get("shape"@) is Some && lists_numbers(v@.get("shape"@)->0, e.shape@)
            &&& v@.get("data_offsets"@) matches Some(JsonModel::List(o))
            &&& o.len() == 2
            &&& o[0].uint() matches Some(a) ==> e.start == a
            &&& o[1].uint() matches Some(b) ==> e.end == b
            &&& o[0].uint() is None ==> e.start == 0
            &&& o[1].uint() is None ==> e.end == 0
            &&& e.start <= e.end <= blob
        },
        r == Err::<StEntry, _>(StErrorKind::MissingDtype) <==> !(v@.get("dtype"@) matches Some(
            JsonModel::Text(_),
        )),
        r == Err::<StEntry, _>(StErrorKind::UnknownDtype) ==> (v@.get("dtype"@) matches Some(
            JsonModel::Text(t),
        ) && StDtype::named(t) is None),
        r == Err::<StEntry, _>(StErrorKind::MissingShape) ==> !(v@.get("shape"@) matches Some(
            JsonModel::List(_),
        )),
        r == Err::<StEntry, _>(StErrorKind::BadShape) ==> (v@.get("shape"@) matches Some(
            JsonModel::List(items),
        ) && exists|i: int| 0 <= i < items.len() && (#[trigger] items[i]).uint() is None),
        r == Err::<StEntry, _>(StErrorKind::MissingOffsets) ==> !(v@.get("data_offsets"@)
            matches Some(JsonModel::List(_))),
        r == Err::<StEntry, _>(StErrorKind::OffsetsNotTwo) ==> (v@.get("data_offsets"@)
            matches Some(JsonModel::List(o)) && o.len() != 2),
        r matches Err(StErrorKind::OffsetsPastEof { start, end }) ==> end < start || end > blob,
        r matches Err(k) ==> k == StErrorKind::MissingDtype || k == StErrorKind::UnknownDtype || k
            == StErrorKind::MissingShape || k == StErrorKind::BadShape || k
            == StErrorKind::MissingOffsets || k == StErrorKind::OffsetsNotTwo || k
            is OffsetsPastEof,
{
    match safetensors::list_at(v@, "shape"@) {
        Some(items) => lemma_uints(items),
        None => {},
    }
}

/// The members of a header other than the table of strings are its entries, each under its own key,
/// where no key occurs twice; there are no other entries.
pub proof fn law_headers_hold_their_entries(
    header: &Json,
    blob: usize,
    table: NameMap<String>,
    entries: NameMap<StEntry>,
    pairs: Seq<(Seq<char>, JsonModel)>,
    i: int,
    key: &str,
    v: &Json,
    r: Result<StEntry, StErrorKind>,
    other: Seq<char>,
)
    requires
        call_ensures(
            read_header,
            (header, blob),
            Ok::<(NameMap<String>, NameMap<StEntry>), StError>((table, entries)),
        ),
        header@ == JsonModel::Object(pairs),
        forall|a: int, b: int|
            0 <= a < b < pairs.len() ==> (#[trigger] pairs[a]).0 != (#[trigger] pairs[b]).0,
        0 <= i < pairs.len(),
        pairs[i] == (key@, v@),
        call_ensures(read_entry, (key, v, blob), r),
    ensures
        key@ != "__metadata__"@ ==> (r matches Ok(e) && entries@.dom().contains(key@)
            && entries@[key@]@ == e@),
        entries@.dom().contains(other) ==> other != "__metadata__"@ && exists|j: int|
            0 <= j < pairs.len() && (#[trigger] pairs[j]).0 == other,
{
    let m = safetensors::entries_of(pairs, blob as nat)->Ok_0;
    lemma_entries(pairs, blob as nat, i, other);
    let all = safetensors::entry_models(entries@);
    assert(all == m);
    assert(all.dom().contains(key@) == entries@.dom().contains(key@));
    assert(all.dom().contains(other) == entries@.dom().contains(other));
}

/// What the entries of a header hold under the keys of its members.
proof fn lemma_entries(
    pairs: Seq<(Seq<char>, JsonModel)>,
    blob: nat,
    i: int,
    other: Seq<char>,
)
    requires
        safetensors::entries_of(pairs, blob) is Ok,
        forall|a: int, b: int|
            0 <= a < b < pairs.len() ==> (#[trigger] pairs[a]).0 != (#[trigger] pairs[b]).0,
        0 <= i < pairs.len(),
    ensures
        ({
            let m = safetensors::entries_of(pairs, blob)->Ok_0;
            &&& pairs[i].0 != "__metadata__"@ ==> m.dom().contains(pairs[i].0) && Ok::<
                safetensors::EntryModel,
                StErrorKind,
            >(m[pairs[i].0]) == safetensors::entry_of(pairs[i].0, pairs[i].1, blob)
            &&& m.dom().contains(other) ==> other != "__metadata__"@ && exists|j: int|
                0 <= j < pairs.len() && (#[trigger] pairs[j]).0 == other
        }),
    decreases pairs.len(),
{
    let before = pairs.drop_last();
    let last = pairs[pairs.len() - 1];
    assert forall|a: int, b: int| 0 <= a < b < before.len() implies (#[trigger] before[a]).0 != (
    #[trigger] before[b]).0 by {
        assert(pairs[a].0 != pairs[b].0);
    }
    if before.len() > 0 {
        let k = if i < before.len() {
            i
        } else {
            0
        };
        lemma_entries(before, blob, k, other);
        assert(before[k] == pairs[k]);
        if i < before.len() {
            assert(pairs[i].0 != last.0);
        }
        if exists|j: int| 0 <= j < before.len() && (#[trigger] before[j]).0 == other {
            let j = choose|j: int| 0 <= j < before.len() && (#[trigger] before[j]).0 == other;
            assert(pairs[j].0 == other);
        }
    } else {
        assert(safetensors::entries_of(before, blob) == Ok::<
            Map<Seq<char>, safetensors::EntryModel>,
            (Seq<char>, StErrorKind),
        >(Map::empty()));
    }
    assert(last.0 == pairs.last().0);
}

/// A file begins with the length of its header in eight bytes; the tensors' bytes follow on the
/// header. A file that is shorter than that is refused.
pub proof fn law_files_begin_with_the_length_of_the_header<'a>(
    data: &'a [u8],
    r: Result<SafeTensors<'a>, StError>,
)
    requires
        call_ensures(SafeTensors::<'a>::from_bytes, (data,), r),
    ensures
        r matches Ok(s) ==> data@.len() >= 8 && s.data@ == data@ && s.data_start == 8
            + bytes::le_value(data@.subrange(0, 8)) && s.data_start <= data@.len(),
        data@.len() < 8 ==> (r matches Err(e) && e.kind == StErrorKind::TooShort),
        data@.len() >= 8 && 8 + bytes::le_value(data@.subrange(0, 8)) > data@.len() ==> (r
            matches Err(e) && e.kind == StErrorKind::HeaderPastEof(
            bytes::le_value(data@.subrange(0, 8)) as u64,
        )),
{
}

/// A tensor's bytes are those of the file from its start to its end, counted from behind the header.
pub proof fn law_bytes_of_a_tensor<'a>(
    s: &SafeTensors<'a>,
    name: &str,
    e: &StEntry,
    b: &'a [u8],
    i: int,
)
    requires
        s.wf(),
        call_ensures(SafeTensors::<'a>::entry, (s, name), Some(e)),
        call_ensures(SafeTensors::<'a>::bytes, (s, name), Ok::<&'a [u8], StError>(b)),
        0 <= i < e.end - e.start,
    ensures
        b@.len() == e.end - e.start,
        b@[i] == s.data@[s.data_start + e.start + i],
{
    assert(s.entries@.dom().contains(name@));
    assert(s@.entries[name@] == s.entries@[name@]@);
}

/// A tensor is there exactly where it has an entry, bytes or a place among the names.
pub proof fn law_lookups_agree<'a>(
    s: &SafeTensors<'a>,
    name: &str,
    has: bool,
    e: Option<&StEntry>,
    b: Result<&'a [u8], StError>,
)
    requires
        s.wf(),
        call_ensures(SafeTensors::<'a>::contains, (s, name), has),
        call_ensures(SafeTensors::<'a>::entry, (s, name), e),
        call_ensures(SafeTensors::<'a>::bytes, (s, name), b),
    ensures
        has == (e is Some) && has == (b is Ok),
        has == s.entries.keys().contains(name@),
        e matches Some(x) ==> x.name@ == name@,
        b matches Err(x) ==> x.kind == StErrorKind::NoSuchTensor && x.tensor@ == name@,
{
    assert(s@.entries.dom().contains(name@) == s.entries@.dom().contains(name@));
    if s.entries@.dom().contains(name@) {
        let i = s.entries.lemma_found(name@);
        assert(s.entries.keys()[i] == name@);
        assert(s.entries@[name@].name@ == name@);
    }
    if s.entries.keys().contains(name@) {
        let i = choose|i: int| 0 <= i < s.entries.keys().len() && s.entries.keys()[i] == name@;
        s.entries.lemma_at(i);
    }
}

/// Single-precision floats keep their bits; those of a bfloat that is a number are the upper half. An
/// element is made of its own bytes alone, and bytes that make no whole element are left out.
pub proof fn law_floats_are_read_element_by_element(dtype: StDtype, b: &[u8], v: Vec<u32>, i: int)
    requires
        dtype.floating(),
        call_ensures(widen_floats, (dtype, b), v),
        0 <= i < v@.len(),
    ensures
        dtype == StDtype::F32 ==> v@.len() == b@.len() / 4 && v@[i] == bytes::le_value(
            b@.subrange(4 * i, 4 * i + 4),
        ),
        dtype == StDtype::BF16 ==> v@.len() == b@.len() / 2,
        ({
            let h = bytes::le_value(b@.subrange(2 * i, 2 * i + 2));
            dtype == StDtype::BF16 && h % 0x8000 <= 0x7f80 ==> v@[i] == 0x1_0000 * h
        }),
        dtype == StDtype::F16 ==> v@.len() == b@.len() / 2,
        dtype == StDtype::F64 ==> v@.len() == b@.len() / 8,
        dtype == StDtype::F8E4M3 || dtype == StDtype::F8E5M2 ==> v@.len() == b@.len(),
{
    bytes::lemma_pow256();
    assert(safetensors::float_elem(dtype, b@, i, v@[i]));
    if dtype == StDtype::BF16 {
        bytes::lemma_le_value_bound(b@.subrange(2 * i, 2 * i + 2));
    }
}

/// The first dimension counts rows and the others make a row, so that rows times columns is the
/// number of elements.
pub proof fn law_rows_and_columns(
    e: &StEntry,
    shape: &[u64],
    n: u64,
    rows: usize,
    cols: usize,
)
    requires
        call_ensures(StEntry::rows_cols, (e,), (rows, cols)),
        shape@ == e.shape@,
        call_ensures(count_elems, (shape,), Some(n)),
        n <= usize::MAX,
        shape@.len() >= 2 ==> shape@[0] > 0,
        shape@.len() >= 2 ==> shape@[0] <= usize::MAX,
    ensures
        rows * cols == n,
        shape@.len() >= 2 ==> rows == shape@[0],
        shape@.len() < 2 ==> rows == 1,
{
    let s = shape@;
    lemma_few_dimensions(s);
    if s.len() == 0 {
        assert(rows == 1 && cols == 1);
        assert(1 * 1 == 1);
        assert(rows * cols == 1 * cols);
    } else if s.len() == 1 {
        assert(1 * s[0] == s[0]);
        assert(rows * cols == 1 * cols);
    } else {
        safetensors::law_rows_times_columns(s);
        let c = geometry::elem_count(s.drop_first())->0;
        assert(c <= s[0] * c) by (nonlinear_arith)
            requires
                s[0] >= 1,
                c >= 0,
        ;
        assert(rows == s[0] && cols == c);
    }
}

/// No dimension makes one element, and one dimension makes as many as it has.
proof fn lemma_few_dimensions(s: Seq<u64>)
    ensures
        s.len() == 0 ==> geometry::elem_count(s) == Some(1u64),
        s.len() == 1 ==> geometry::elem_count(s) == Some(s[0]),
{
    if s.len() == 1 {
        assert(s.drop_last() =~= Seq::<u64>::empty());
        assert(geometry::elem_count(Seq::<u64>::empty()) == Some(1u64));
        assert(s.last() == s[0]);
        assert(1 * s[0] == s[0]);
    }
}

/// The files of a model are those that its index names as texts under `weight_map`, each once and in
/// order.
pub proof fn law_files_of_an_index(index: &Json, r: Option<Vec<String>>, f: Seq<char>)
    requires
        call_ensures(shard_files, (index,), r),
    ensures
        r is Some <==> (index@.get("weight_map"@) matches Some(JsonModel::Object(_))),
        r is Some ==> ((exists|i: int| 0 <= i < r->0@.len() && (#[trigger] r->0@[i])@ == f)
            <==> exists|j: int|
            #![trigger index@.get("weight_map"@)->0->Object_0[j]]
            0 <= j < index@.get("weight_map"@)->0->Object_0.len() && index@.get(
                "weight_map"@,
            )->0->Object_0[j].1 == JsonModel::Text(f)),
        r matches Some(v) ==> forall|a: int, b: int|
            0 <= a < b < v@.len() ==> text::precedes((#[trigger] v@[a])@, (#[trigger] v@[b])@),
{
    if let Some(JsonModel::Object(pairs)) = index@.get("weight_map"@) {
        let v = r->0;
        let keys = Seq::new(v@.len(), |i: int| v@[i]@);
        lemma_file_names(pairs, f);
        assert(keys.to_set().contains(f) <==> keys.contains(f));
        if keys.contains(f) {
            let i = choose|i: int| 0 <= i < keys.len() && keys[i] == f;
            assert(v@[i]@ == f);
        }
        if exists|i: int| 0 <= i < v@.len() && (#[trigger] v@[i])@ == f {
            let i = choose|i: int| 0 <= i < v@.len() && (#[trigger] v@[i])@ == f;
            assert(keys[i] == f);
        }
        assert forall|a: int, b: int| 0 <= a < b < v@.len() implies text::precedes(
            (#[trigger] v@[a])@,
            (#[trigger] v@[b])@,
        ) by {
            assert(text::precedes(keys[a], keys[b]));
        }
    }
}

/// A file is named where a member is a text of that name.
proof fn lemma_file_names(pairs: Seq<(Seq<char>, JsonModel)>, f: Seq<char>)
    ensures
        sharded::file_names(pairs).contains(f) <==> exists|j: int|
            0 <= j < pairs.len() && (#[trigger] pairs[j]).1 == JsonModel::Text(f),
    decreases pairs.len(),
{
    if pairs.len() > 0 {
        let before = pairs.drop_last();
        lemma_file_names(before, f);
        assert(pairs[pairs.len() - 1] == pairs.last());
        if exists|j: int| 0 <= j < before.len() && (#[trigger] before[j]).1 == JsonModel::Text(f) {
            let j = choose|j: int|
                0 <= j < before.len() && (#[trigger] before[j]).1 == JsonModel::Text(f);
            assert(pairs[j].1 == JsonModel::Text(f));
        }
        if exists|j: int| 0 <= j < pairs.len() && (#[trigger] pairs[j]).1 == JsonModel::Text(f) {
            let j = choose|j: int|
                0 <= j < pairs.len() && (#[trigger] pairs[j]).1 == JsonModel::Text(f);
            if j < before.len() {
                assert(before[j].1 == JsonModel::Text(f));
            }
        }
    }
}

/// A model in several files has the tensors of all of them. A tensor is read from the last file that
/// holds it.
pub proof fn law_tensors_of_several_files<'a>(
    s: &ShardedSafeTensors<'a>,
    name: &str,
    has: bool,
    from: Option<&SafeTensors<'a>>,
    i: int,
)
    requires
        s.wf(),
        call_ensures(ShardedSafeTensors::<'a>::contains, (s, name), has),
        call_ensures(ShardedSafeTensors::<'a>::shard_of, (s, name), from),
        0 <= i < s.shards@.len(),
    ensures
        has == (from is Some),
        s.shards@[i].entries@.dom().contains(name@) ==> has,
        from matches Some(f) ==> f.entries@.dom().contains(name@) && exists|k: int|
            0 <= k < s.shards@.len() && *f == #[trigger] s.shards@[k] && (i > k
                ==> !s.shards@[i].entries@.dom().contains(name@)),
{
    sharded::lemma_last_holder(s.shards@, name@);
    if let Some(k) = sharded::last_holder(s.shards@, name@) {
        assert(*(from->0) == s.shards@[k]);
    }
}

/// Tensors are shared out to files in their order: the files follow on each other from the first
/// tensor to the last, none is empty, one with several tensors keeps to the limit, and a file is
/// closed only where the next tensor does not fit.
pub proof fn law_files_share_out_the_tensors(
    sizes: &[u64],
    max: u64,
    r: Vec<(usize, usize)>,
    k: int,
)
    requires
        call_ensures(partition, (sizes, max), r),
        0 <= k < r@.len(),
        sizes@.len() <= usize::MAX,
    ensures
        r@[k].0 == if k == 0 {
            0
        } else {
            r@[k - 1].1
        },
        r@[k].0 < r@[k].1 <= sizes@.len(),
        k == r@.len() - 1 ==> r@[k].1 == sizes@.len(),
        r@[k].1 > r@[k].0 + 1 && max < u64::MAX ==> total(
            sizes@,
            r@[k].0 as int,
            r@[k].1 as int,
        ) <= max,
        k < r@.len() - 1 ==> total(sizes@, r@[k].0 as int, r@[k].1 as int) + sizes@[r@[k].1 as int]
            > max,
{
    shards::lemma_shard_at(sizes@, max, k);
    lemma_shard_size(sizes@, 0, max, k);
    lemma_total(sizes@, r@[k].0 as int, r@[k].1 as int);
}

/// A file with several tensors keeps to the limit, and the next tensor does not fit.
proof fn lemma_shard_size(sizes: Seq<u64>, start: int, max: u64, k: int)
    requires
        0 <= start <= sizes.len() <= usize::MAX,
        0 <= k < shards::shards_from(sizes, start, max).len(),
    ensures
        ({
            let s = shards::shards_from(sizes, start, max);
            let size = shards::range_size(sizes, s[k].0 as int, s[k].1 as int);
            &&& s[k].1 > s[k].0 + 1 ==> size <= max
            &&& k < s.len() - 1 ==> shards::sat_add(size, sizes[s[k].1 as int] as nat) > max
        }),
    decreases k,
{
    let end = shards::shard_end(sizes, start, start, 0, max);
    assert(shards::range_size(sizes, start, start) == 0);
    shards::lemma_shard_end(sizes, start, start, max);
    let rest = shards::shards_from(sizes, end, max);
    let s = shards::shards_from(sizes, start, max);
    let head = (start as usize, end as usize);
    assert(s == seq![head] + rest);
    if k == 0 {
        assert(s[0] == head);
        if end == sizes.len() {
            assert(rest.len() == 0);
        }
    } else {
        assert(s[k] == rest[k - 1]);
        lemma_shard_size(sizes, end, max, k - 1);
    }
}

/// The bytes of the tensors from `a` up to `b`.
pub open spec fn total(sizes: Seq<u64>, a: int, b: int) -> nat
    decreases b - a,
{
    if b <= a {
        0
    } else {
        total(sizes, a, b - 1) + sizes[b - 1] as nat
    }
}

/// The sum that stops at the greatest 64-bit number is the sum up to there.
proof fn lemma_total(sizes: Seq<u64>, a: int, b: int)
    requires
        0 <= a <= b,
    ensures
        shards::range_size(sizes, a, b) == if total(sizes, a, b) <= u64::MAX {
            total(sizes, a, b)
        } else {
            u64::MAX as nat
        },
    decreases b - a,
{
    if a < b {
        lemma_total(sizes, a, b - 1);
    }
}

/// A file is named by its number and by how many there are, in at least five digits each.
pub proof fn law_names_of_files(i: usize, count: usize, r: String)
    requires
        call_ensures(shard_filename, (i, count), r),
        10000 <= i <= 99999,
        10000 <= count <= 99999,
    ensures
        r@ == "model-"@ + text::decimal(i as nat) + "-of-"@ + text::decimal(count as nat)
            + ".safetensors"@,
{
    lemma_five(i as nat);
    lemma_five(count as nat);
}

/// A number from 10000 on has five digits.
proof fn lemma_five(n: nat)
    requires
        10000 <= n <= 99999,
    ensures
        text::decimal(n).len() == 5,
{
    reveal_with_fuel(text::decimal, 6);
}

/// A number below ten is written with four zeros before it.
pub proof fn law_names_of_the_first_files(i: usize, count: usize, r: String)
    requires
        call_ensures(shard_filename, (i, count), r),
        i < 10,
        count < 10,
    ensures
        r@ == "model-"@ + seq!['0', '0', '0', '0'] + text::decimal(i as nat) + "-of-"@ + seq![
            '0',
            '0',
            '0',
            '0',
        ] + text::decimal(count as nat) + ".safetensors"@,
{
    let z = Seq::new(4nat, |i: int| '0');
    assert(z =~= seq!['0', '0', '0', '0']);
    assert(text::decimal(i as nat).len() == 1 && text::decimal(count as nat).len() == 1);
    assert(shards::five_digits(i as nat) =~= z + text::decimal(i as nat));
    assert(shards::five_digits(count as nat) =~= z + text::decimal(count as nat));
    assert(r@ =~= "model-"@ + seq!['0', '0', '0', '0'] + text::decimal(i as nat) + "-of-"@ + seq![
        '0',
        '0',
        '0',
        '0',
    ] + text::decimal(count as nat) + ".safetensors"@);
}

/// A file that is written reads back: behind its header and with the tensors' bytes, a reader finds
/// each of its tensors by name with its type, its shape and the range in which its bytes were put.
pub proof fn law_written_files_read_back<'a>(
    items: &[ShardItem],
    header: Vec<u8>,
    data: Seq<u8>,
    file: &'a [u8],
    r: Result<SafeTensors<'a>, StError>,
    i: int,
)
    requires
        shards::offset_of(shards::item_models(items@), items@.len() as int) <= u64::MAX,
        call_ensures(shards::shard_header, (items,), header),
        data.len() == shards::offset_of(shards::item_models(items@), items@.len() as int),
        file@ == header@ + data,
        call_ensures(SafeTensors::<'a>::from_bytes, (file,), r),
        shards::names_distinct(shards::item_models(items@)),
        0 <= i < items@.len(),
    ensures
        r matches Ok(s) && s@.entries.dom().contains(items@[i].name@) && {
            let e = s@.entries[items@[i].name@];
            &&& e.dtype == items@[i].dtype
            &&& e.shape == items@[i].shape@
            &&& e.end - e.start == items@[i].nbytes
            &&& e.start == shards::offset_of(shards::item_models(items@), i)
        },
{
    let m = shards::item_models(items@);
    assert(safetensors::read_file(header@ + data) == Ok::<
        safetensors::StModel,
        (Seq<char>, StErrorKind),
    >(shards::shard_model(m, header@.len())));
    shards::lemma_named(m, i);
    assert(m[i].name == items@[i].name@);
    assert(m[i] == items@[i]@);
}

/// Scales apply to nothing where there are none, to the whole weight where there is one, to rows
/// where there are as many in a column, and to tiles otherwise.
pub proof fn law_scales_apply_by_their_number<'a>(
    vals: &'a [u32],
    shape: &[u64],
    rows: usize,
    block: (usize, usize),
    r: dequant::Fp8Scale<'a>,
    i: nat,
    j: nat,
    cols: nat,
    tiles: nat,
)
    requires
        call_ensures(choose_scale, (vals, shape, rows, block), r),
        rows > 1,
        i < rows,
        j < cols,
        block.0 > 0 && block.1 > 0,
        tiles * block.1 >= cols,
        (tiles - 1) * block.1 < cols,
    ensures
        vals@.len() == 0 ==> r.scale_at(i, j, cols) == 0x3f80_0000,
        vals@.len() == 1 ==> r.scale_at(i, j, cols) == vals@[0],
        vals@.len() == rows && (shape@.len() < 2 || shape@[0] == rows) ==> r.scale_at(i, j, cols)
            == vals@[i as int],
        ({
            let at = i as int / block.0 as int * tiles + j as int / block.1 as int;
            shape@.len() == 2 && shape@[0] as usize != rows && vals@.len() > 1 && at < vals@.len()
                ==> r.scale_at(i, j, cols) == vals@[at]
        }),
{
    let kind = load::scale_kind(vals@.len(), shape@, rows);
    assert(r.scale_at(i, j, cols) == load::kind_scale(kind, vals@, block, i, j, cols));
    lemma_tiles(cols, block.1 as nat, tiles);
}

/// So many tiles cover the columns, and one less does not.
proof fn lemma_tiles(cols: nat, width: nat, n: nat)
    requires
        width > 0,
        n * width >= cols,
        (n - 1) * width < cols,
    ensures
        dequant::tiles(cols, width) == n,
{
    let (q, r) = (cols as int / width as int, cols as int % width as int);
    vstd::arithmetic::div_mod::lemma_fundamental_div_mod(cols as int, width as int);
    assert(width * q == q * width) by (nonlinear_arith);
    assert((n - 1) * width == n * width - width) by (nonlinear_arith);
    if r == 0 {
        assert(q == n) by (nonlinear_arith)
            requires
                q * width == cols,
                n * width >= cols,
                n * width - width < cols,
                width > 0,
        ;
    } else {
        assert(q + 1 == n) by (nonlinear_arith)
            requires
                q * width + r == cols,
                0 < r < width,
                n * width >= cols,
                n * width - width < cols,
                width > 0,
        ;
    }
}

/// An NVFP4 weight is read from the tensors of its name: two elements for each byte of a row of
/// `.weight`, and a scale for the whole from `.weight_scale_2`.
pub proof fn law_nvfp4_weights_by_name<S: TensorSource>(
    src: &S,
    prefix: &str,
    r: Result<DequantizedLinear, LoadError>,
)
    requires
        src.ready(),
        call_ensures(load_nvfp4_linear::<S>, (src, prefix), r),
    ensures
        r matches Ok(lin) ==> {
            let w = src.entry_at(prefix@ + ".weight"@);
            &&& w is Some && w->0.shape.len() == 2
            &&& src.entry_at(prefix@ + ".weight_scale"@) is Some
            &&& lin.rows == w->0.shape[0] && lin.cols == 2 * w->0.shape[1]
            &&& lin.data@.len() == lin.rows * lin.cols
            &&& lin.source_type == 0x8000
            &&& src.entry_at(prefix@ + ".weight_scale_2"@) is None ==> forall|i: int|
                0 <= i < lin.data@.len() ==> (#[trigger] lin.data@[i]).global == 0x3f80_0000
        },
        src.entry_at(prefix@ + ".weight"@) is None ==> (r matches Err(e) && e.tensor@ == prefix@
            + ".weight"@ && e.kind == LoadErrorKind::NotFound),
        src.entry_at(prefix@ + ".weight"@) is Some && src.entry_at(
            prefix@ + ".weight"@,
        )->0.shape.len() != 2 ==> (r matches Err(e) && e.kind == LoadErrorKind::NotTwoDims),
{
}

/// A dense eight-bit weight is read from `.weight`, row by row, with the scales of
/// `.weight_scale_inv` or, where that is missing, of `.weight_scale`.
pub proof fn law_fp8_weights_by_name<S: TensorSource>(
    src: &S,
    prefix: &str,
    block: (usize, usize),
    r: Result<DequantizedLinear, LoadError>,
)
    requires
        src.ready(),
        call_ensures(load_fp8_linear::<S>, (src, prefix, block), r),
    ensures
        r matches Ok(lin) ==> {
            let w = src.entry_at(prefix@ + ".weight"@);
            &&& w is Some
            &&& w->0.dtype == StDtype::F8E4M3 ==> lin.source_type == 0x8001
            &&& w->0.dtype == StDtype::F8E5M2 ==> lin.source_type == 0x8002
            &&& w->0.dtype == StDtype::F8E4M3 || w->0.dtype == StDtype::F8E5M2
            &&& w->0.shape.len() == 2 ==> lin.rows == w->0.shape[0] && lin.cols == w->0.shape[1]
            &&& lin.data@.len() == lin.rows * lin.cols
            &&& src.entry_at(prefix@ + ".weight_scale_inv"@) is None && src.entry_at(
                prefix@ + ".weight_scale"@,
            ) is None ==> forall|i: int|
                0 <= i < lin.data@.len() ==> (#[trigger] lin.data@[i]).scale == 0x3f80_0000
        },
        src.entry_at(prefix@ + ".weight"@) is None ==> (r matches Err(e) && e.tensor@ == prefix@
            + ".weight"@ && e.kind == LoadErrorKind::NotFound),
{
    if let Some(w) = src.entry_at(prefix@ + ".weight"@) {
        if w.shape.len() == 2 {
            let rest = w.shape.drop_first();
            lemma_few_dimensions(rest);
            assert(rest[0] == w.shape[1]);
        }
    }
}

/// The elements of a tensor are those of its bytes; single-precision ones keep their bits. A tensor
/// of whole numbers is refused, and so is the first element of an empty one.
pub proof fn law_elements_of_a_tensor<'a>(
    s: &SafeTensors<'a>,
    name: &str,
    e: &StEntry,
    b: &'a [u8],
    r: Result<Vec<u32>, StError>,
    first: Result<u32, StError>,
    i: int,
)
    requires
        s.wf(),
        call_ensures(SafeTensors::<'a>::entry, (s, name), Some(e)),
        call_ensures(SafeTensors::<'a>::bytes, (s, name), Ok::<&'a [u8], StError>(b)),
        call_ensures(SafeTensors::<'a>::to_f32, (s, name), r),
        call_ensures(SafeTensors::<'a>::scalar_f32, (s, name), first),
    ensures
        r is Ok <==> e.dtype == StDtype::F32 || e.dtype == StDtype::F64 || e.dtype == StDtype::F16
            || e.dtype == StDtype::BF16 || e.dtype == StDtype::F8E4M3 || e.dtype
            == StDtype::F8E5M2,
        r matches Err(x) ==> x.kind == StErrorKind::NotFloat(e.dtype) && x.tensor@ == name@,
        e.dtype == StDtype::F32 && r is Ok ==> r->Ok_0@.len() == b@.len() / 4 && (0 <= i
            < r->Ok_0@.len() ==> r->Ok_0@[i] == bytes::le_value(b@.subrange(4 * i, 4 * i + 4))),
        e.dtype == StDtype::F32 && b@.len() >= 4 ==> first == Ok::<u32, StError>(
            bytes::le_value(b@.subrange(0, 4)) as u32,
        ),
        e.dtype == StDtype::F32 && b@.len() < 4 ==> (first matches Err(x) && x.kind
            == StErrorKind::Empty),
{
    assert(s@.entries[name@] == e@);
    if e.dtype == StDtype::F32 && r is Ok && 0 <= i < r->Ok_0@.len() {
        assert(safetensors::float_elem(e.dtype, b@, i, r->Ok_0@[i]));
    }
    if e.dtype == StDtype::F32 && b@.len() >= 4 {
        bytes::lemma_pow256();
        bytes::lemma_le_value_bound(b@.subrange(0, 4));
    }
}

/// Names come in order, and each is that of an entry.
pub proof fn law_names_in_order<'a>(s: &SafeTensors<'a>, r: Vec<&str>, i: int, j: int)
    requires
        s.wf(),
        call_ensures(SafeTensors::<'a>::names, (s,), r),
        0 <= i < j < r@.len(),
    ensures
        r@.len() == s.entries.items@.len(),
        text::precedes(r@[i]@, r@[j]@),
        s.entries@.dom().contains(r@[i]@),
{
    s.entries.lemma_at(i);
    assert(s.entries.keys()[i] == r@[i]@ && s.entries.keys()[j] == r@[j]@);
    assert(names::in_order(s.entries.keys()));
}

/// The index states the bytes of all tensors, and under each name the file that holds the tensor: the
/// one of the shard in which it stands.
pub proof fn law_index_of_the_files(
    items: &[ShardItem],
    max: u64,
    r: Json,
    sizes: &[u64],
    parts: Vec<(usize, usize)>,
    k: int,
    i: int,
    number: usize,
    count: usize,
    file: String,
)
    requires
        shards::offset_of(shards::item_models(items@), items@.len() as int) <= u64::MAX,
        items@.len() <= usize::MAX,
        shards::names_distinct(shards::item_models(items@)),
        call_ensures(index_json, (items, max), r),
        sizes@ == shards::sizes_of(shards::item_models(items@)),
        call_ensures(partition, (sizes, max), parts),
        0 <= k < parts@.len(),
        parts@[k].0 <= i < parts@[k].1,
        number == k + 1,
        count == parts@.len(),
        call_ensures(shard_filename, (number, count), file),
    ensures
        r@.get("metadata"@) matches Some(m) && m.get("total_size"@) == Some(
            JsonModel::UInt(
                shards::offset_of(shards::item_models(items@), items@.len() as int) as u64,
            ),
        ),
        r@.get("weight_map"@) matches Some(w) && w.get(items@[i].name@) == Some(
            JsonModel::Text(file@),
        ),
{
    let m = shards::item_models(items@);
    let n = m.len() as int;
    let total = shards::offset_of(m, n) as u64;
    let w = choose|w: Seq<(Seq<char>, JsonModel)>|
        {
            &&& r@ == #[trigger] shards::index_with(total, w)
            &&& json::keys_grow(w)
            &&& json::members(JsonModel::Object(w)) == shards::weight_members(m, max, n)
        };
    shards::lemma_shard_at(sizes@, max, k);
    assert(shards::stands_in(parts@, i, k));
    shards::lemma_weight_has(m, max, n, i, k);
    let top = r@->Object_0;
    reveal_strlit("metadata");
    reveal_strlit("weight_map");
    assert("metadata"@[0] == 'm' && "weight_map"@[0] == 'w');
    assert(top.drop_first()[0] == top[1]);
    assert(json::member(top.drop_first(), "weight_map"@) == Some(JsonModel::Object(w)));
    let sum = seq![("total_size"@, JsonModel::UInt(total))];
    assert(json::member(sum, "total_size"@) == Some(JsonModel::UInt(total)));
    json::lemma_said(JsonModel::Object(w), items@[i].name@);
    assert(m[i] == items@[i]@);
}

} // verus!
