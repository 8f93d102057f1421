//! What a model file looks like, byte by byte.
use vstd::prelude::*;
use vstd::utf8::*;
use crate::bytes;
use crate::gguf::geometry;
use crate::gguf::geometry::TensorError;
use crate::gguf::reader;
use crate::gguf::reader::{find_value, tensor_nbytes, GgufReader, TensorInfo};
use crate::gguf::value;
use crate::gguf::value::{
    read_string, read_value, value_type, GgufError, GgufType, GgufValue, ValueModel,
};
use crate::gguf::writer;
use crate::gguf::writer::{
    data_len, padding_after, GgufWriter, TensorPlan, TensorSpec, WrongLength,
};

verus! {

/// Value types have these numbers in a file, and no other number is a type.
pub proof fn law_types_by_number(t: GgufType, n: u32, v: u32, r: Result<GgufType, GgufError>)
    requires
        call_ensures(GgufType::to_u32, (t,), n),
        call_ensures(GgufType::from_u32, (v,), r),
    ensures
        t == GgufType::U8 <==> n == 0,
        t == GgufType::I8 <==> n == 1,
        t == GgufType::U16 <==> n == 2,
        t == GgufType::I16 <==> n == 3,
        t == GgufType::U32 <==> n == 4,
        t == GgufType::I32 <==> n == 5,
        t == GgufType::F32 <==> n == 6,
        t == GgufType::Bool <==> n == 7,
        t == GgufType::String <==> n == 8,
        t == GgufType::Array <==> n == 9,
        t == GgufType::U64 <==> n == 10,
        t == GgufType::I64 <==> n == 11,
        t == GgufType::F64 <==> n == 12,
        r == Ok::<GgufType, GgufError>(t) <==> v == n,
        r is Err <==> v > 12,
        r is Err ==> r == Err::<GgufType, _>(GgufError::UnknownType(v)),
{
}

/// The unsigned number in the bytes of a file from `a` up to `b`, the lowest byte first.
pub open spec fn number(b: Seq<u8>, at: int, n: int) -> nat {
    bytes::le_value(b.subrange(at, at + n))
}

/// A string is its length in eight bytes and then its bytes as UTF-8.
pub proof fn law_strings_have_their_length(
    b: &[u8],
    cur: usize,
    r: Result<(String, usize), GgufError>,
)
    requires
        cur <= b@.len(),
        call_ensures(read_string, (b, cur), r),
    ensures
        r matches Ok((s, end)) ==> {
            let n = number(b@, cur as int, 8);
            &&& end == cur + 8 + n
            &&& end <= b@.len()
            &&& s@ == decode_utf8(b@.subrange(cur + 8, cur + 8 + n))
        },
        cur + 8 > b@.len() ==> r is Err,
{
}

/// Numbers take one, two, four or eight bytes, a flag takes one, and each is what its bytes spell,
/// the lowest first; a signed number in two's complement.
pub proof fn law_numbers_have_their_widths(
    b: &[u8],
    cur: usize,
    t: GgufType,
    v: GgufValue,
    end: usize,
)
    requires
        cur <= b@.len(),
        call_ensures(read_value, (b, cur, t), Ok::<(GgufValue, usize), GgufError>((v, end))),
    ensures
        t == GgufType::U8 ==> end == cur + 1 && v@ == ValueModel::U8(
            number(b@, cur as int, 1) as u8,
        ),
        t == GgufType::U16 ==> end == cur + 2 && v@ == ValueModel::U16(
            number(b@, cur as int, 2) as u16,
        ),
        t == GgufType::U32 ==> end == cur + 4 && v@ == ValueModel::U32(
            number(b@, cur as int, 4) as u32,
        ),
        t == GgufType::U64 ==> end == cur + 8 && v@ == ValueModel::U64(
            number(b@, cur as int, 8) as u64,
        ),
        t == GgufType::F32 ==> end == cur + 4 && v@ == ValueModel::F32(
            number(b@, cur as int, 4) as u32,
        ),
        t == GgufType::F64 ==> end == cur + 8 && v@ == ValueModel::F64(
            number(b@, cur as int, 8) as u64,
        ),
        t == GgufType::Bool ==> end == cur + 1 && v@ == ValueModel::Bool(
            number(b@, cur as int, 1) != 0,
        ),
        t == GgufType::I8 ==> end == cur + 1 && (v@ matches ValueModel::I8(x) && complement(
            x as int,
            number(b@, cur as int, 1) as int,
            0x100,
        )),
        t == GgufType::I16 ==> end == cur + 2 && (v@ matches ValueModel::I16(x) && complement(
            x as int,
            number(b@, cur as int, 2) as int,
            0x1_0000,
        )),
        t == GgufType::I32 ==> end == cur + 4 && (v@ matches ValueModel::I32(x) && complement(
            x as int,
            number(b@, cur as int, 4) as int,
            0x1_0000_0000,
        )),
        t == GgufType::I64 ==> end == cur + 8 && (v@ matches ValueModel::I64(x) && complement(
            x as int,
            number(b@, cur as int, 8) as int,
            0x1_0000_0000_0000_0000,
        )),
        t == GgufType::String ==> v@ is Str,
        t == GgufType::Array ==> v@ is Array,
{
    bytes::lemma_pow256();
    if t == GgufType::I8 {
        bytes::lemma_le_value_bound(b@.subrange(cur as int, cur + 1));
    } else if t == GgufType::I16 {
        bytes::lemma_le_value_bound(b@.subrange(cur as int, cur + 2));
    } else if t == GgufType::I32 {
        bytes::lemma_le_value_bound(b@.subrange(cur as int, cur + 4));
    } else if t == GgufType::I64 {
        bytes::lemma_le_value_bound(b@.subrange(cur as int, cur + 8));
    }
}

/// A signed number and the unsigned one with the same bits, of so many patterns.
pub open spec fn complement(x: int, n: int, patterns: int) -> bool {
    if 2 * n < patterns {
        x == n
    } else {
        x == n - patterns
    }
}

/// An array is the number of its element type in four bytes, how many items it has in eight, and
/// the items. One without items ends there.
pub proof fn law_arrays_state_their_items(b: &[u8], cur: usize, v: GgufValue, end: usize)
    requires
        cur <= b@.len(),
        call_ensures(
            read_value,
            (b, cur, GgufType::Array),
            Ok::<(GgufValue, usize), GgufError>((v, end)),
        ),
    ensures
        v@ matches ValueModel::Array(elem, items) && {
            &&& items.len() == number(b@, cur + 4, 8)
            &&& value::type_code(elem) == number(b@, cur as int, 4)
            &&& items.len() == 0 ==> end == cur + 12
        },
{
    bytes::lemma_pow256();
    bytes::lemma_le_value_bound(b@.subrange(cur as int, cur + 4));
    let n = number(b@, cur + 4, 8);
    let elem = value::type_of_code(number(b@, cur as int, 4) as u32)->Ok_0;
    lemma_items(b@, cur + 12, elem, n);
}

/// As many values are read as were asked for.
proof fn lemma_items(b: Seq<u8>, pos: int, t: GgufType, n: nat)
    ensures
        value::read_vals(b, pos, t, n) matches Ok((items, _)) ==> items.len() == n,
    decreases n,
{
    if n > 0 {
        match value::read_val(b, pos, t) {
            Ok((_, p)) => lemma_items(b, p, t, (n - 1) as nat),
            Err(_) => {},
        }
    }
}

/// As many items are read as were asked for.
proof fn lemma_list<T>(read: spec_fn(int) -> Result<(T, int), GgufError>, pos: int, n: nat)
    ensures
        reader::read_list(read, pos, n) matches Ok((items, _)) ==> items.len() == n,
    decreases n,
{
    if n > 0 {
        match read(pos) {
            Ok((_, p)) => lemma_list(read, p, (n - 1) as nat),
            Err(_) => {},
        }
    }
}

/// A file begins with four letters, its version, which is two or three, the number of its tensors
/// and the number of its pairs, and it has as many of both.
pub proof fn law_files_begin_with_their_counts<'a>(
    data: &'a [u8],
    r: Result<GgufReader<'a>, GgufError>,
)
    requires
        data@.len() <= isize::MAX,
        call_ensures(GgufReader::<'a>::from_bytes, (data,), r),
    ensures
        r matches Ok(g) ==> {
            &&& data@.len() >= 24
            &&& data@.subrange(0, 4) == seq![0x47u8, 0x47, 0x55, 0x46]
            &&& g.version == number(data@, 4, 4)
            &&& g.version == 2 || g.version == 3
            &&& g.tensors@.len() == number(data@, 8, 8)
            &&& g.kv@.len() == number(data@, 16, 8)
            &&& g.data@ == data@
        },
        data@.len() >= 4 && data@.subrange(0, 4) != seq![0x47u8, 0x47, 0x55, 0x46] ==> r == Err::<
            GgufReader<'a>,
            _,
        >(GgufError::NotGguf),
        data@.len() >= 8 && data@.subrange(0, 4) == seq![0x47u8, 0x47, 0x55, 0x46] && number(
            data@,
            4,
            4,
        ) != 2 && number(data@, 4, 4) != 3 ==> r == Err::<GgufReader<'a>, _>(
            GgufError::UnsupportedVersion(number(data@, 4, 4) as u32),
        ),
{
    bytes::lemma_pow256();
    if data@.len() >= 8 {
        bytes::lemma_le_value_bound(data@.subrange(4, 8));
    }
    if r is Ok {
        let g = r->Ok_0;
        let n_kv = number(data@, 16, 8);
        lemma_list(reader::kv_reader(data@), 24, n_kv);
        let p = reader::read_list(reader::kv_reader(data@), 24, n_kv)->Ok_0;
        lemma_list(reader::info_reader(data@), p.1, number(data@, 8, 8));
        assert(g@.kv.len() == g.kv@.len());
        assert(g@.tensors.len() == g.tensors@.len());
    }
}

/// The dimensions of a tensor as a file lists them.
proof fn lemma_dims(b: Seq<u8>, pos: int, n: nat, k: int)
    requires
        pos >= 0,
        reader::read_list(reader::dim_reader(b), pos, n) is Ok,
        0 <= k < n,
    ensures
        ({
            let (disk, end) = reader::read_list(reader::dim_reader(b), pos, n)->Ok_0;
            &&& disk.len() == n
            &&& end == pos + 8 * n
            &&& disk[k] == number(b, pos + 8 * k, 8)
        }),
    decreases n,
{
    let read = reader::dim_reader(b);
    let first = reader::read_dim(b, pos);
    assert(read(pos) == first);
    assert(first is Ok);
    let v = first->Ok_0.0;
    let rest = reader::read_list(read, pos + 8, (n - 1) as nat);
    assert(reader::read_list(read, pos, n) == reader::put_before(seq![v], rest));
    bytes::lemma_pow256();
    bytes::lemma_le_value_bound(b.subrange(pos, pos + 8));
    assert(v == number(b, pos, 8));
    let (s, _) = rest->Ok_0;
    if n > 1 {
        lemma_dims(b, pos + 8, (n - 1) as nat, if k > 0 {
            k - 1
        } else {
            0
        });
    } else {
        assert(s.len() == 0);
    }
    assert((seq![v] + s)[k] == if k == 0 {
        v
    } else {
        s[k - 1]
    });
    assert(pos + 8 + 8 * (k - 1) == pos + 8 * k);
}

/// The header of a tensor is its name, the number of its dimensions in four bytes, the dimensions in
/// eight bytes each from the innermost to the outermost, its type in four bytes and its place in
/// eight. It is stated of the first tensor of a file without pairs, which stands at a known place.
pub proof fn law_tensor_headers<'a>(data: &'a [u8], g: GgufReader<'a>, len: nat, n: nat, k: int)
    requires
        data@.len() <= isize::MAX,
        call_ensures(GgufReader::<'a>::from_bytes, (data,), Ok::<GgufReader<'a>, GgufError>(g)),
        number(data@, 16, 8) == 0,
        number(data@, 8, 8) > 0,
        len == number(data@, 24, 8),
        n == number(data@, (32 + len) as int, 4),
        0 <= k < n,
    ensures
        ({
            let t = g.tensors@[0];
            let end = 36 + len + 8 * n;
            &&& g.tensors@.len() > 0
            &&& t.name@ == decode_utf8(data@.subrange(32, (32 + len) as int))
            &&& t.dims@.len() == n
            &&& t.dims@[n - 1 - k] == number(data@, (36 + len + 8 * k) as int, 8)
            &&& t.ggml_type == number(data@, end as int, 4)
            &&& t.offset == number(data@, (end + 4) as int, 8)
        }),
{
    let b = data@;
    bytes::lemma_pow256();
    assert(reader::read_list(reader::kv_reader(b), 24, 0) == Ok::<
        (Seq<(Seq<char>, ValueModel)>, int),
        GgufError,
    >((Seq::empty(), 24)));
    let count = number(b, 8, 8);
    let first = reader::read_info(b, 24);
    assert((reader::info_reader(b))(24) == first);
    lemma_list(reader::info_reader(b), 24, count);
    let all = reader::read_list(reader::info_reader(b), 24, count)->Ok_0.0;
    assert(all == g@.tensors);
    assert(all[0] == first->Ok_0.0);
    assert(g@.tensors[0] == g.tensors@[0]@);
    let at = 36 + len;
    lemma_dims(b, at as int, n, k);
    let end: int = (at + 8 * n) as int;
    bytes::lemma_le_value_bound(b.subrange(end, end + 4));
    bytes::lemma_le_value_bound(b.subrange(end + 4, end + 12));
    let disk = reader::read_list(reader::dim_reader(b), at as int, n)->Ok_0.0;
    assert(disk.reverse()[n - 1 - k] == disk[k]);
}

/// The data of a file begin at a multiple of its alignment: the one that it states as a 32-bit
/// number, one where that is zero, and 32 where it states none.
pub proof fn law_data_are_aligned<'a>(
    data: &'a [u8],
    key: &str,
    g: GgufReader<'a>,
    v: Option<&GgufValue>,
)
    requires
        data@.len() <= isize::MAX,
        call_ensures(GgufReader::<'a>::from_bytes, (data,), Ok::<GgufReader<'a>, GgufError>(g)),
        key@ == "general.alignment"@,
        call_ensures(GgufReader::<'a>::get, (&g, key), v),
    ensures
        v is None ==> g.alignment == 32,
        v matches Some(x) ==> (x@ matches ValueModel::U32(a) ==> a > 0 ==> g.alignment == a),
        v matches Some(x) ==> (x@ == ValueModel::U32(0) ==> g.alignment == 1),
        v matches Some(x) ==> (x@ is Str ==> g.alignment == 32),
        g.alignment > 0,
{
}

/// The first pair of a key counts.
pub proof fn law_first_pair_counts(kv: &[(String, GgufValue)], key: &str, r: Option<&GgufValue>)
    requires
        call_ensures(find_value, (kv, key), r),
    ensures
        match r {
            Some(v) => exists|i: int|
                0 <= i < kv@.len() && (#[trigger] kv@[i]).0@ == key@ && kv@[i].1@ == v@ && forall|
                    j: int,
                |
                    0 <= j < i ==> (#[trigger] kv@[j]).0@ != key@,
            None => forall|i: int| 0 <= i < kv@.len() ==> (#[trigger] kv@[i]).0@ != key@,
        },
{
    let m = reader::kv_model(kv@);
    lemma_first(m, key@);
    match reader::first_value(m, key@) {
        Some(v) => {
            let i = choose|i: int|
                0 <= i < m.len() && (#[trigger] m[i]).0 == key@ && m[i].1 == v && forall|j: int|
                    0 <= j < i ==> (#[trigger] m[j]).0 != key@;
            assert(kv@[i].0@ == key@);
            assert forall|j: int| 0 <= j < i implies (#[trigger] kv@[j]).0@ != key@ by {
                assert(m[j].0 != key@);
            }
        },
        None => {
            assert forall|i: int| 0 <= i < kv@.len() implies (#[trigger] kv@[i]).0@ != key@ by {
                assert(m[i].0 != key@);
            }
        },
    }
}

/// Where the first pair of a key stands.
proof fn lemma_first(kv: Seq<(Seq<char>, ValueModel)>, key: Seq<char>)
    ensures
        match reader::first_value(kv, key) {
            Some(v) => exists|i: int|
                0 <= i < kv.len() && (#[trigger] kv[i]).0 == key && kv[i].1 == v && forall|j: int|
                    0 <= j < i ==> (#[trigger] kv[j]).0 != key,
            None => forall|i: int| 0 <= i < kv.len() ==> (#[trigger] kv[i]).0 != key,
        },
    decreases kv.len(),
{
    if kv.len() > 0 && kv[0].0 != key {
        let rest = kv.drop_first();
        lemma_first(rest, key);
        match reader::first_value(rest, key) {
            Some(v) => {
                let i = choose|i: int|
                    0 <= i < rest.len() && (#[trigger] rest[i]).0 == key && rest[i].1 == v
                        && forall|j: int| 0 <= j < i ==> (#[trigger] rest[j]).0 != key;
                assert(kv[i + 1].0 == key && kv[i + 1].1 == v);
                assert forall|j: int| 0 <= j < i + 1 implies (#[trigger] kv[j]).0 != key by {
                    if j > 0 {
                        assert(rest[j - 1].0 != key);
                    }
                }
            },
            None => {
                assert forall|i: int| 0 <= i < kv.len() implies (#[trigger] kv[i]).0 != key by {
                    if i > 0 {
                        assert(rest[i - 1].0 != key);
                    }
                }
            },
        }
    } else if kv.len() > 0 {
        assert(kv[0].0 == key);
    }
}

/// The bytes of a tensor are as many as its type and its dimensions make, from its place in the data
/// on; a tensor that ends behind the file is refused.
pub proof fn law_bytes_of_a_tensor<'a>(
    g: &GgufReader<'a>,
    idx: usize,
    len: u64,
    r: Result<&'a [u8], TensorError>,
    i: int,
)
    requires
        idx < g.tensors@.len(),
        call_ensures(
            tensor_nbytes,
            (&g.tensors@[idx as int],),
            Ok::<u64, TensorError>(len),
        ),
        call_ensures(GgufReader::<'a>::tensor_bytes, (g, idx), r),
        0 <= i < len,
    ensures
        ({
            let start = g.data_offset + g.tensors@[idx as int].offset;
            match r {
                Ok(b) => b@.len() == len && start + len <= g.data@.len() && b@[i] == g.data@[start
                    + i],
                Err(e) => start + len > g.data@.len() && e.kind == GgufError::PastEnd && e.tensor@
                    == g.tensors@[idx as int].name@,
            }
        }),
{
}

/// Single-precision elements of a tensor keep their bits; of a bfloat that is a number they are the
/// upper half. A tensor of another type than these and half precision is refused.
pub proof fn law_elements_of_a_tensor<'a>(
    g: &GgufReader<'a>,
    idx: usize,
    b: &'a [u8],
    r: Result<Vec<u32>, TensorError>,
    i: int,
)
    requires
        idx < g.tensors@.len(),
        call_ensures(GgufReader::<'a>::tensor_bytes, (g, idx), Ok::<&'a [u8], TensorError>(b)),
        call_ensures(GgufReader::<'a>::tensor_to_f32, (g, idx), r),
        r matches Ok(v) ==> 0 <= i < v@.len(),
    ensures
        ({
            let t = g.tensors@[idx as int].ggml_type;
            &&& r is Ok <==> t == 0 || t == 1 || t == 30
            &&& r matches Err(e) ==> e.kind == GgufError::NotFloat(t)
            &&& r matches Ok(v) ==> Some(v@.len() as u64) == geometry::elem_count(
                g.tensors@[idx as int].dims@,
            )
            &&& r matches Ok(v) ==> t == 0 ==> v@[i] == number(b@, 4 * i, 4)
            &&& r matches Ok(v) ==> {
                let h = number(b@, 2 * i, 2);
                t == 30 && h % 0x8000 <= 0x7f80 && h < 0x1_0000 ==> v@[i] == 0x1_0000 * h
            }
        }),
{
    if let Ok(v) = r {
        assert(reader::float_elem(g.tensors@[idx as int].ggml_type, b@, i, v@[i]));
    }
}

/// Rows and columns are both outer dimensions.
pub proof fn law_rows_and_columns(t: &TensorInfo, rows: usize, cols: usize)
    requires
        call_ensures(TensorInfo::rows_cols, (t,), (rows, cols)),
        forall|i: int| 0 <= i < t.dims@.len() ==> #[trigger] t.dims@[i] <= usize::MAX,
    ensures
        t.dims@.len() == 0 ==> rows == 0 && cols == 0,
        t.dims@.len() == 1 ==> rows == 1 && cols == t.dims@[0],
        t.dims@.len() >= 2 ==> rows == t.dims@[0] && cols == t.dims@[1],
{
}

/// Values are taken for what they are: texts as texts, 32-bit numbers as such, floats and 32-bit
/// numbers as floats, arrays as arrays.
pub proof fn law_values_are_taken_for_what_they_are(
    v: &GgufValue,
    s: Option<&str>,
    n: Option<u32>,
    f: Option<u32>,
    a: Option<(&GgufType, &[GgufValue])>,
    t: GgufType,
)
    requires
        call_ensures(GgufValue::as_str, (v,), s),
        call_ensures(GgufValue::as_u32, (v,), n),
        call_ensures(GgufValue::as_f32, (v,), f),
        call_ensures(GgufValue::as_array, (v,), a),
        call_ensures(value_type, (v,), t),
    ensures
        s is Some <==> t == GgufType::String,
        n is Some <==> t == GgufType::U32 || t == GgufType::I32,
        f is Some <==> t == GgufType::F32 || t == GgufType::F64 || t == GgufType::I32 || t
            == GgufType::U32,
        a is Some <==> t == GgufType::Array,
        *v matches GgufValue::String(x) ==> s is Some && s->0@ == x@,
        *v matches GgufValue::U32(x) ==> n == Some(x),
        *v matches GgufValue::I32(x) ==> (n matches Some(y) && complement(
            x as int,
            y as int,
            0x1_0000_0000,
        )),
        *v matches GgufValue::F32(x) ==> f == Some(x),
        *v matches GgufValue::U8(_) ==> t == GgufType::U8,
        *v matches GgufValue::I8(_) ==> t == GgufType::I8,
        *v matches GgufValue::U16(_) ==> t == GgufType::U16,
        *v matches GgufValue::I16(_) ==> t == GgufType::I16,
        *v matches GgufValue::U32(_) ==> t == GgufType::U32,
        *v matches GgufValue::I32(_) ==> t == GgufType::I32,
        *v matches GgufValue::F32(_) ==> t == GgufType::F32,
        *v matches GgufValue::Bool(_) ==> t == GgufType::Bool,
        *v matches GgufValue::String(_) ==> t == GgufType::String,
        *v matches GgufValue::U64(_) ==> t == GgufType::U64,
        *v matches GgufValue::I64(_) ==> t == GgufType::I64,
        *v matches GgufValue::F64(_) ==> t == GgufType::F64,
        *v matches GgufValue::Array { .. } ==> t == GgufType::Array,
{
}

/// One more tensor takes its bytes in the data section and, behind them, as many zeros as make the
/// section a multiple of the alignment again.
pub proof fn law_data_grow_by_whole_units(
    a: &[TensorPlan],
    b: &[TensorPlan],
    p: TensorPlan,
    alignment: u64,
    x: u64,
    y: u64,
    pad: Result<u64, WrongLength>,
)
    requires
        b@ == a@.push(p),
        alignment > 0,
        call_ensures(data_len, (a, alignment), Some(x)),
        call_ensures(data_len, (b, alignment), Some(y)),
        call_ensures(padding_after, (&p, p.nbytes, alignment), pad),
        geometry::aligned(p.nbytes as nat, alignment as nat) <= u64::MAX,
    ensures
        a@.len() == 0 ==> x == 0,
        pad matches Ok(n) && y == x + p.nbytes + n && n < alignment && (p.nbytes + n)
            % alignment as int == 0,
{
    let s = writer::plans_model(a@);
    let t = writer::plans_model(b@);
    lemma_offset(s, t, alignment as nat, a@.len() as int);
    assert(t[a@.len() as int] == p@);
    geometry::lemma_aligned(p.nbytes as nat, alignment as nat);
}

/// Where a tensor begins depends on those before it alone.
proof fn lemma_offset(
    a: Seq<writer::PlanModel>,
    b: Seq<writer::PlanModel>,
    alignment: nat,
    n: int,
)
    requires
        0 <= n <= a.len() <= b.len(),
        forall|i: int| 0 <= i < a.len() ==> #[trigger] b[i] == a[i],
    ensures
        writer::offset_of(a, alignment, n) == writer::offset_of(b, alignment, n),
    decreases n,
{
    if n > 0 {
        lemma_offset(a, b, alignment, n - 1);
        assert(b[n - 1] == a[n - 1]);
    }
}

/// Data of another length than a tensor states are refused.
pub proof fn law_wrong_lengths_are_refused(
    p: &TensorPlan,
    provided: u64,
    alignment: u64,
    r: Result<u64, WrongLength>,
)
    requires
        geometry::aligned(p.nbytes as nat, alignment as nat) <= u64::MAX,
        call_ensures(padding_after, (p, provided, alignment), r),
    ensures
        r is Ok <==> provided == p.nbytes,
        r matches Err(e) ==> e.provided == provided && e.stated == p.nbytes,
{
}

/// A new file has no pairs and no tensors, the alignment 32 and the version three. An alignment that
/// is set is kept, but for zero, which counts as one.
pub proof fn law_new_files(w: GgufWriter, x: &mut GgufWriter, a: u64)
    requires
        call_ensures(GgufWriter::new, (), w),
        call_ensures(GgufWriter::set_alignment, (x, a), ()),
    ensures
        w.kv@.len() == 0 && w.tensors@.len() == 0 && w.alignment == 32 && w.version == 3,
        a > 0 ==> final(x).alignment == a,
        a == 0 ==> final(x).alignment == 1,
        final(x).kv@ == old(x).kv@ && final(x).tensors@ == old(x).tensors@,
{
}

/// Pairs and tensors are added behind the others.
pub proof fn law_additions_come_last(
    x: &mut GgufWriter,
    key: String,
    value: GgufValue,
    y: &mut GgufWriter,
    t: TensorSpec,
)
    requires
        call_ensures(GgufWriter::add_kv, (x, key, value), ()),
        call_ensures(GgufWriter::add_tensor, (y, t), ()),
    ensures
        final(x).kv@ == old(x).kv@.push((key, value)) && final(x).tensors@ == old(x).tensors@,
        final(y).tensors@ == old(y).tensors@.push(t) && final(y).kv@ == old(y).kv@,
        final(x).alignment == old(x).alignment && final(y).alignment == old(y).alignment,
{
}

/// All pairs of a file are copied in their order but those that state its alignment.
pub proof fn law_pairs_are_copied(x: &mut GgufWriter, source: &GgufReader<'_>)
    requires
        call_ensures(GgufWriter::copy_kv_from, (x, source), ()),
    ensures
        reader::kv_model(final(x).kv@) == reader::kv_model(old(x).kv@) + reader::kv_model(
            source.kv@,
        ).filter(|p: (Seq<char>, ValueModel)| p.0 != "general.alignment"@),
        final(x).tensors@ == old(x).tensors@,
        final(x).alignment == old(x).alignment,
{
    lemma_without(reader::kv_model(source.kv@));
}

/// The pairs that do not state an alignment.
proof fn lemma_without(kv: Seq<(Seq<char>, ValueModel)>)
    ensures
        writer::without_alignment(kv) == kv.filter(
            |p: (Seq<char>, ValueModel)| p.0 != "general.alignment"@,
        ),
    decreases kv.len(),
{
    reveal(Seq::filter);
    if kv.len() > 0 {
        lemma_without(kv.drop_last());
    } else {
        assert(writer::without_alignment(kv) =~= kv);
    }
}

/// The first tensor of a name is found.
pub proof fn law_first_tensor_is_found<'a>(
    g: &GgufReader<'a>,
    name: &str,
    r: Option<usize>,
    j: int,
)
    requires
        call_ensures(GgufReader::<'a>::find_tensor, (g, name), r),
        0 <= j < g.tensors@.len(),
    ensures
        g.tensors@[j].name@ == name@ ==> r is Some && r->0 <= j,
        r matches Some(i) ==> i < g.tensors@.len() && g.tensors@[i as int].name@ == name@,
{
}

} // verus!
