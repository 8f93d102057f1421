//! Metadata values: what they are, how they are written, how they are read.
use vstd::prelude::*;
use vstd::utf8::*;
use crate::bytes::{le_at, of_i16, of_i32, of_i64, of_i8, push_le, to_i16, to_i32, to_i64, to_i8};
use crate::bytes;
use crate::minifloat;
use crate::text::text_of_utf8;

verus! {

/// The type of a metadata value.
#[derive(Debug, Clone, Copy, PartialEq, Eq, Structural)]
pub enum GgufType {
    U8,
    I8,
    U16,
    I16,
    U32,
    I32,
    F32,
    Bool,
    String,
    Array,
    U64,
    I64,
    F64,
}

/// A metadata value. `F32` and `F64` hold the IEEE 754 bits. An array carries its element type.
#[derive(Debug)]
pub enum GgufValue {
    U8(u8),
    I8(i8),
    U16(u16),
    I16(i16),
    U32(u32),
    I32(i32),
    F32(u32),
    Bool(bool),
    String(String),
    U64(u64),
    I64(i64),
    F64(u64),
    Array { elem: GgufType, items: Vec<GgufValue> },
}

/// Why a container, or a tensor in it, could not be read.
#[derive(Debug, Clone, Copy, PartialEq, Eq, Structural)]
pub enum GgufError {
    /// `n` bytes were wanted at position `at`, and the data ends before that.
    PastEof { at: u64, n: u64 },
    /// The first four bytes are not `GGUF`.
    NotGguf,
    /// A version other than 2 and 3.
    UnsupportedVersion(u32),
    /// A type number that names no value type.
    UnknownType(u32),
    /// A string that is not UTF-8.
    NotUtf8,
    /// No tensor has this index.
    NoSuchTensor(usize),
    /// A tensor type whose geometry is not known.
    UnsupportedTensorType(u32),
    /// `n` elements are not a whole number of blocks.
    NotWholeBlocks { ggml_type: u32, n: u64, block: u64 },
    /// The size of a tensor does not fit in 64 bits.
    SizeOverflow,
    /// The tensor's data ends behind the end of the file.
    PastEnd,
    /// A tensor type that holds no plain floats.
    NotFloat(u32),
}

/// What a [`GgufValue`] stands for.
pub enum ValueModel {
    U8(u8),
    I8(i8),
    U16(u16),
    I16(i16),
    U32(u32),
    I32(i32),
    F32(u32),
    Bool(bool),
    Str(Seq<char>),
    U64(u64),
    I64(i64),
    F64(u64),
    Array(GgufType, Seq<ValueModel>),
}

/// The number that stands for a type in a file.
pub open spec fn type_code(t: GgufType) -> u32 {
    match t {
        GgufType::U8 => 0,
        GgufType::I8 => 1,
        GgufType::U16 => 2,
        GgufType::I16 => 3,
        GgufType::U32 => 4,
        GgufType::I32 => 5,
        GgufType::F32 => 6,
        GgufType::Bool => 7,
        GgufType::String => 8,
        GgufType::Array => 9,
        GgufType::U64 => 10,
        GgufType::I64 => 11,
        GgufType::F64 => 12,
    }
}

/// The type that a number stands for.
pub open spec fn type_of_code(v: u32) -> Result<GgufType, GgufError> {
    if v == 0 {
        Ok(GgufType::U8)
    } else if v == 1 {
        Ok(GgufType::I8)
    } else if v == 2 {
        Ok(GgufType::U16)
    } else if v == 3 {
        Ok(GgufType::I16)
    } else if v == 4 {
        Ok(GgufType::U32)
    } else if v == 5 {
        Ok(GgufType::I32)
    } else if v == 6 {
        Ok(GgufType::F32)
    } else if v == 7 {
        Ok(GgufType::Bool)
    } else if v == 8 {
        Ok(GgufType::String)
    } else if v == 9 {
        Ok(GgufType::Array)
    } else if v == 10 {
        Ok(GgufType::U64)
    } else if v == 11 {
        Ok(GgufType::I64)
    } else if v == 12 {
        Ok(GgufType::F64)
    } else {
        Err(GgufError::UnknownType(v))
    }
}

/// What a value stands for.
pub open spec fn value_model(v: GgufValue) -> ValueModel
    decreases v,
{
    match v {
        GgufValue::U8(x) => ValueModel::U8(x),
        GgufValue::I8(x) => ValueModel::I8(x),
        GgufValue::U16(x) => ValueModel::U16(x),
        GgufValue::I16(x) => ValueModel::I16(x),
        GgufValue::U32(x) => ValueModel::U32(x),
        GgufValue::I32(x) => ValueModel::I32(x),
        GgufValue::F32(x) => ValueModel::F32(x),
        GgufValue::Bool(x) => ValueModel::Bool(x),
        GgufValue::String(s) => ValueModel::Str(s@),
        GgufValue::U64(x) => ValueModel::U64(x),
        GgufValue::I64(x) => ValueModel::I64(x),
        GgufValue::F64(x) => ValueModel::F64(x),
        GgufValue::Array { elem, items } => ValueModel::Array(elem, items_model(items@)),
    }
}

/// What a list of values stands for.
pub open spec fn items_model(items: Seq<GgufValue>) -> Seq<ValueModel>
    decreases items,
{
    if items.len() == 0 {
        Seq::empty()
    } else {
        items_model(items.drop_last()).push(value_model(items.last()))
    }
}

impl View for GgufValue {
    type V = ValueModel;

    open spec fn view(&self) -> ValueModel {
        value_model(*self)
    }
}

/// The type of a value.
pub open spec fn type_of(v: ValueModel) -> GgufType {
    match v {
        ValueModel::U8(_) => GgufType::U8,
        ValueModel::I8(_) => GgufType::I8,
        ValueModel::U16(_) => GgufType::U16,
        ValueModel::I16(_) => GgufType::I16,
        ValueModel::U32(_) => GgufType::U32,
        ValueModel::I32(_) => GgufType::I32,
        ValueModel::F32(_) => GgufType::F32,
        ValueModel::Bool(_) => GgufType::Bool,
        ValueModel::Str(_) => GgufType::String,
        ValueModel::U64(_) => GgufType::U64,
        ValueModel::I64(_) => GgufType::I64,
        ValueModel::F64(_) => GgufType::F64,
        ValueModel::Array(_, _) => GgufType::Array,
    }
}

/// Every item of every array has the array's element type.
pub open spec fn well_typed(v: ValueModel) -> bool
    decreases v,
{
    match v {
        ValueModel::Array(elem, items) => items_well_typed(elem, items),
        _ => true,
    }
}

/// Every item has the type `elem`, and so on inside the items. There are at most 2^64 - 1 items.
pub open spec fn items_well_typed(elem: GgufType, items: Seq<ValueModel>) -> bool
    decreases items,
{
    if items.len() == 0 {
        true
    } else {
        &&& type_of(items[0]) == elem
        &&& well_typed(items[0])
        &&& items_well_typed(elem, items.drop_first())
    }
}

/// Every length inside the value fits in the 64 bits that a file has for it.
pub open spec fn lengths_fit(v: ValueModel) -> bool
    decreases v,
{
    match v {
        ValueModel::Str(s) => encode_utf8(s).len() <= u64::MAX,
        ValueModel::Array(_, items) => items.len() <= u64::MAX && items_lengths_fit(items),
        _ => true,
    }
}

/// Every length inside the items fits in 64 bits.
pub open spec fn items_lengths_fit(items: Seq<ValueModel>) -> bool
    decreases items,
{
    if items.len() == 0 {
        true
    } else {
        lengths_fit(items[0]) && items_lengths_fit(items.drop_first())
    }
}

/// A string as a file holds it: its length in bytes, then the bytes.
pub open spec fn str_bytes(s: Seq<char>) -> Seq<u8> {
    bytes::le_bytes(encode_utf8(s).len(), 8) + encode_utf8(s)
}

/// A value as a file holds it, without its type.
pub open spec fn value_bytes(v: ValueModel) -> Seq<u8>
    decreases v,
{
    match v {
        ValueModel::U8(x) => bytes::le_bytes(x as nat, 1),
        ValueModel::I8(x) => bytes::le_bytes(bytes::unsigned_of(x as int, 0x80) as nat, 1),
        ValueModel::U16(x) => bytes::le_bytes(x as nat, 2),
        ValueModel::I16(x) => bytes::le_bytes(bytes::unsigned_of(x as int, 0x8000) as nat, 2),
        ValueModel::U32(x) => bytes::le_bytes(x as nat, 4),
        ValueModel::I32(x) => bytes::le_bytes(bytes::unsigned_of(x as int, 0x8000_0000) as nat, 4),
        ValueModel::F32(x) => bytes::le_bytes(x as nat, 4),
        ValueModel::Bool(x) => bytes::le_bytes(if x { 1nat } else { 0nat }, 1),
        ValueModel::Str(s) => str_bytes(s),
        ValueModel::U64(x) => bytes::le_bytes(x as nat, 8),
        ValueModel::I64(x) => bytes::le_bytes(
            bytes::unsigned_of(x as int, 0x8000_0000_0000_0000) as nat,
            8,
        ),
        ValueModel::F64(x) => bytes::le_bytes(x as nat, 8),
        ValueModel::Array(elem, items) => bytes::le_bytes(type_code(elem) as nat, 4) + (bytes::le_bytes(
            items.len(),
            8,
        ) + items_bytes(items)),
    }
}

/// Values one behind the other.
pub open spec fn items_bytes(items: Seq<ValueModel>) -> Seq<u8>
    decreases items,
{
    if items.len() == 0 {
        Seq::empty()
    } else {
        value_bytes(items[0]) + items_bytes(items.drop_first())
    }
}

/// The number in the `n` bytes at `pos`, and the position behind them.
pub open spec fn read_num(b: Seq<u8>, pos: int, n: int) -> Result<(nat, int), GgufError> {
    if pos + n > b.len() {
        Err(GgufError::PastEof { at: pos as u64, n: n as u64 })
    } else {
        Ok((bytes::le_value(b.subrange(pos, pos + n)), pos + n))
    }
}

/// The string at `pos`, and the position behind it.
pub open spec fn read_str(b: Seq<u8>, pos: int) -> Result<(Seq<char>, int), GgufError> {
    match read_num(b, pos, 8) {
        Err(e) => Err(e),
        Ok((n, p)) => if p + n > b.len() {
            Err(GgufError::PastEof { at: p as u64, n: n as u64 })
        } else if !valid_utf8(b.subrange(p, p + n)) {
            Err(GgufError::NotUtf8)
        } else {
            Ok((decode_utf8(b.subrange(p, p + n)), p + n))
        },
    }
}

/// The value of type `t` at `pos`, and the position behind it.
pub open spec fn read_val(b: Seq<u8>, pos: int, t: GgufType) -> Result<
    (ValueModel, int),
    GgufError,
>
    decreases b.len() - pos, 0int,
{
    match t {
        GgufType::String => match read_str(b, pos) {
            Err(e) => Err(e),
            Ok((s, p)) => Ok((ValueModel::Str(s), p)),
        },
        GgufType::Array => match read_num(b, pos, 4) {
            Err(e) => Err(e),
            Ok((c, p)) => match type_of_code(c as u32) {
                Err(e) => Err(e),
                Ok(elem) => match read_num(b, p, 8) {
                    Err(e) => Err(e),
                    Ok((n, q)) => match read_vals(b, q, elem, n) {
                        Err(e) => Err(e),
                        Ok((items, r)) => Ok((ValueModel::Array(elem, items), r)),
                    },
                },
            },
        },
        _ => match read_num(b, pos, scalar_width(t)) {
            Err(e) => Err(e),
            Ok((n, p)) => Ok((scalar(t, n), p)),
        },
    }
}

/// The `n` values of type `t` that begin at `pos`, and the position behind them. Each value takes
/// at least one byte ([`lemma_read_val_advances`]), so the reading always moves on.
pub open spec fn read_vals(b: Seq<u8>, pos: int, t: GgufType, n: nat) -> Result<
    (Seq<ValueModel>, int),
    GgufError,
>
    decreases b.len() - pos, 1int,
{
    if n == 0 {
        Ok((Seq::empty(), pos))
    } else {
        match read_val(b, pos, t) {
            Err(e) => Err(e),
            Ok((v, p)) => if pos < p <= b.len() {
                match read_vals(b, p, t, (n - 1) as nat) {
                    Err(e) => Err(e),
                    Ok((vs, q)) => Ok((seq![v] + vs, q)),
                }
            } else {
                Err(GgufError::PastEof { at: pos as u64, n: 1 })
            },
        }
    }
}

/// How many bytes a value of a fixed-width type takes.
pub open spec fn scalar_width(t: GgufType) -> int {
    match t {
        GgufType::U8 => 1,
        GgufType::I8 => 1,
        GgufType::U16 => 2,
        GgufType::I16 => 2,
        GgufType::U32 => 4,
        GgufType::I32 => 4,
        GgufType::F32 => 4,
        GgufType::Bool => 1,
        _ => 8,
    }
}

/// The value of the fixed-width type `t` whose bytes spell `n`.
pub open spec fn scalar(t: GgufType, n: nat) -> ValueModel {
    match t {
        GgufType::U8 => ValueModel::U8(n as u8),
        GgufType::I8 => ValueModel::I8(bytes::signed_of(n as int, 0x80) as i8),
        GgufType::U16 => ValueModel::U16(n as u16),
        GgufType::I16 => ValueModel::I16(bytes::signed_of(n as int, 0x8000) as i16),
        GgufType::U32 => ValueModel::U32(n as u32),
        GgufType::I32 => ValueModel::I32(bytes::signed_of(n as int, 0x8000_0000) as i32),
        GgufType::F32 => ValueModel::F32(n as u32),
        GgufType::Bool => ValueModel::Bool(n != 0),
        GgufType::I64 => ValueModel::I64(
            bytes::signed_of(n as int, 0x8000_0000_0000_0000) as i64,
        ),
        GgufType::F64 => ValueModel::F64(n as u64),
        _ => ValueModel::U64(n as u64),
    }
}

/// `items` put before what was read.
pub open spec fn prepended(items: Seq<ValueModel>, r: Result<(Seq<ValueModel>, int), GgufError>) -> Result<
    (Seq<ValueModel>, int),
    GgufError,
> {
    match r {
        Err(e) => Err(e),
        Ok((s, p)) => Ok((items + s, p)),
    }
}

/// The model of a list has the models of its items.
pub proof fn lemma_items_model(items: Seq<GgufValue>)
    ensures
        items_model(items).len() == items.len(),
        forall|i: int|
            0 <= i < items.len() ==> #[trigger] items_model(items)[i] == value_model(items[i]),
    decreases items.len(),
{
    if items.len() > 0 {
        lemma_items_model(items.drop_last());
        assert forall|i: int| 0 <= i < items.len() implies #[trigger] items_model(items)[i]
            == value_model(items[i]) by {
            if i < items.len() - 1 {
                assert(items.drop_last()[i] == items[i]);
                assert(items_model(items.drop_last())[i] == value_model(items.drop_last()[i]));
            }
        }
    }
}

/// Every value that is read takes at least one byte, ends inside the data, has the type that was
/// asked for, and holds only items of the type that its arrays announce.
pub proof fn lemma_read_val_advances(b: Seq<u8>, pos: int, t: GgufType)
    requires
        0 <= pos <= b.len(),
    ensures
        read_val(b, pos, t) is Ok ==> {
            let (v, p) = read_val(b, pos, t)->Ok_0;
            pos < p <= b.len() && type_of(v) == t && well_typed(v)
        },
    decreases b.len() - pos, 0int,
{
    if t is Array && read_num(b, pos, 4) is Ok {
        let c = read_num(b, pos, 4)->Ok_0.0;
        if type_of_code(c as u32) is Ok && read_num(b, pos + 4, 8) is Ok {
            let n = read_num(b, pos + 4, 8)->Ok_0.0;
            lemma_read_vals_advance(b, pos + 12, type_of_code(c as u32)->Ok_0, n);
        }
    }
}

/// A list of values that is read ends inside the data and has the length and the type asked for.
pub proof fn lemma_read_vals_advance(b: Seq<u8>, pos: int, t: GgufType, n: nat)
    requires
        0 <= pos <= b.len(),
    ensures
        read_vals(b, pos, t, n) is Ok ==> {
            let (vs, p) = read_vals(b, pos, t, n)->Ok_0;
            pos <= p <= b.len() && vs.len() == n && items_well_typed(t, vs)
        },
    decreases b.len() - pos, 1int,
{
    if n > 0 {
        lemma_read_val_advances(b, pos, t);
        if read_val(b, pos, t) is Ok {
            let (v, p) = read_val(b, pos, t)->Ok_0;
            lemma_read_vals_advance(b, p, t, (n - 1) as nat);
            if read_vals(b, p, t, (n - 1) as nat) is Ok {
                let vs = read_vals(b, p, t, (n - 1) as nat)->Ok_0.0;
                assert((seq![v] + vs).drop_first() =~= vs);
            }
        }
    }
}

impl GgufType {
    /// The type that a number stands for; [`GgufError::UnknownType`] for every other number.
    pub fn from_u32(v: u32) -> (r: Result<GgufType, GgufError>)
        ensures
            r == type_of_code(v),
    {
        if v == 0 {
            Ok(GgufType::U8)
        } else if v == 1 {
            Ok(GgufType::I8)
        } else if v == 2 {
            Ok(GgufType::U16)
        } else if v == 3 {
            Ok(GgufType::I16)
        } else if v == 4 {
            Ok(GgufType::U32)
        } else if v == 5 {
            Ok(GgufType::I32)
        } else if v == 6 {
            Ok(GgufType::F32)
        } else if v == 7 {
            Ok(GgufType::Bool)
        } else if v == 8 {
            Ok(GgufType::String)
        } else if v == 9 {
            Ok(GgufType::Array)
        } else if v == 10 {
            Ok(GgufType::U64)
        } else if v == 11 {
            Ok(GgufType::I64)
        } else if v == 12 {
            Ok(GgufType::F64)
        } else {
            Err(GgufError::UnknownType(v))
        }
    }

    /// The number that stands for the type.
    pub fn to_u32(self) -> (r: u32)
        ensures
            r == type_code(self),
    {
        match self {
            GgufType::U8 => 0,
            GgufType::I8 => 1,
            GgufType::U16 => 2,
            GgufType::I16 => 3,
            GgufType::U32 => 4,
            GgufType::I32 => 5,
            GgufType::F32 => 6,
            GgufType::Bool => 7,
            GgufType::String => 8,
            GgufType::Array => 9,
            GgufType::U64 => 10,
            GgufType::I64 => 11,
            GgufType::F64 => 12,
        }
    }
}

/// The number of every type is read back as that type.
pub proof fn lemma_type_codes(t: GgufType)
    ensures
        type_of_code(type_code(t)) == Ok::<GgufType, GgufError>(t),
{
}

/// A number that stands in the data in `n` bytes is read as that number.
pub proof fn lemma_num_roundtrip(b: Seq<u8>, pos: int, v: nat, n: nat)
    requires
        bytes::stands_at(b, pos, bytes::le_bytes(v, n)),
        v < bytes::pow256(n),
    ensures
        read_num(b, pos, n as int) == Ok::<(nat, int), GgufError>((v, pos + n)),
{
    bytes::lemma_le_bytes_len(v, n);
    bytes::lemma_le_roundtrip(v, n);
}

/// A string that stands in the data is read as that string.
pub proof fn lemma_str_roundtrip(b: Seq<u8>, pos: int, s: Seq<char>)
    requires
        bytes::stands_at(b, pos, str_bytes(s)),
        encode_utf8(s).len() <= u64::MAX,
    ensures
        read_str(b, pos) == Ok::<(Seq<char>, int), GgufError>((s, pos + str_bytes(s).len())),
{
    let e = encode_utf8(s);
    bytes::lemma_pow256();
    bytes::lemma_le_bytes_len(e.len(), 8);
    bytes::lemma_stands_split(b, pos, bytes::le_bytes(e.len(), 8), e);
    lemma_num_roundtrip(b, pos, e.len(), 8);
    vstd::utf8::encode_utf8_valid_utf8(s);
    vstd::utf8::encode_utf8_decode_utf8(s);
}

/// A value that stands in the data is read as that value, and the reading stops right behind it.
pub proof fn lemma_value_roundtrip(b: Seq<u8>, pos: int, v: ValueModel)
    requires
        bytes::stands_at(b, pos, value_bytes(v)),
        well_typed(v),
        lengths_fit(v),
    ensures
        read_val(b, pos, type_of(v)) == Ok::<(ValueModel, int), GgufError>(
            (v, pos + value_bytes(v).len()),
        ),
    decreases v,
{
    bytes::lemma_pow256();
    match v {
        ValueModel::U8(x) => lemma_num_roundtrip(b, pos, x as nat, 1),
        ValueModel::I8(x) => lemma_num_roundtrip(b, pos, bytes::unsigned_of(x as int, 0x80) as nat, 1),
        ValueModel::U16(x) => lemma_num_roundtrip(b, pos, x as nat, 2),
        ValueModel::I16(x) => lemma_num_roundtrip(b, pos, bytes::unsigned_of(x as int, 0x8000) as nat, 2),
        ValueModel::U32(x) => lemma_num_roundtrip(b, pos, x as nat, 4),
        ValueModel::I32(x) => lemma_num_roundtrip(
            b,
            pos,
            bytes::unsigned_of(x as int, 0x8000_0000) as nat,
            4,
        ),
        ValueModel::F32(x) => lemma_num_roundtrip(b, pos, x as nat, 4),
        ValueModel::Bool(x) => lemma_num_roundtrip(
            b,
            pos,
            if x {
                1nat
            } else {
                0nat
            },
            1,
        ),
        ValueModel::Str(s) => lemma_str_roundtrip(b, pos, s),
        ValueModel::U64(x) => lemma_num_roundtrip(b, pos, x as nat, 8),
        ValueModel::I64(x) => lemma_num_roundtrip(
            b,
            pos,
            bytes::unsigned_of(x as int, 0x8000_0000_0000_0000) as nat,
            8,
        ),
        ValueModel::F64(x) => lemma_num_roundtrip(b, pos, x as nat, 8),
        ValueModel::Array(elem, items) => {
            let c = bytes::le_bytes(type_code(elem) as nat, 4);
            let n = bytes::le_bytes(items.len(), 8);
            bytes::lemma_le_bytes_len(type_code(elem) as nat, 4);
            bytes::lemma_le_bytes_len(items.len(), 8);
            bytes::lemma_stands_split(b, pos, c, n + items_bytes(items));
            bytes::lemma_stands_split(b, pos + 4, n, items_bytes(items));
            lemma_num_roundtrip(b, pos, type_code(elem) as nat, 4);
            lemma_num_roundtrip(b, pos + 4, items.len(), 8);
            lemma_type_codes(elem);
            lemma_items_roundtrip(b, pos + 12, elem, items);
        },
    }
    bytes::lemma_le_bytes_len(0, 1);
    if !(v is Str) && !(v is Array) {
        assert(read_num(b, pos, scalar_width(type_of(v))) is Ok);
        assert(value_bytes(v).len() == scalar_width(type_of(v))) by {
            broadcast use bytes::lemma_le_bytes_len;

        }
    }
}

/// Values that stand in the data one behind the other are read as those values.
pub proof fn lemma_items_roundtrip(b: Seq<u8>, pos: int, t: GgufType, items: Seq<ValueModel>)
    requires
        bytes::stands_at(b, pos, items_bytes(items)),
        items_well_typed(t, items),
        items_lengths_fit(items),
    ensures
        read_vals(b, pos, t, items.len()) == Ok::<(Seq<ValueModel>, int), GgufError>(
            (items, pos + items_bytes(items).len()),
        ),
    decreases items,
{
    if items.len() == 0 {
        assert(items =~= Seq::empty());
    } else {
        let first = value_bytes(items[0]);
        let rest = items.drop_first();
        bytes::lemma_stands_split(b, pos, first, items_bytes(rest));
        lemma_value_roundtrip(b, pos, items[0]);
        lemma_read_val_advances(b, pos, t);
        lemma_items_roundtrip(b, pos + first.len(), t, rest);
        assert(seq![items[0]] + rest =~= items);
    }
}

/// Reads the number in the `n` bytes at `cur`.
pub fn read_number(b: &[u8], cur: usize, n: usize) -> (r: Result<(u64, usize), GgufError>)
    requires
        cur <= b@.len(),
        n <= 8,
    ensures
        match r {
            Ok((v, p)) => read_num(b@, cur as int, n as int) == Ok::<_, GgufError>(
                (v as nat, p as int),
            ) && p <= b@.len() && v < bytes::pow256(n as nat),
            Err(e) => read_num(b@, cur as int, n as int) == Err::<(nat, int), _>(e),
        },
{
    let len: usize = b.len();
    if n > len - cur {
        return Err(GgufError::PastEof { at: cur as u64, n: n as u64 });
    }
    Ok((le_at(b, cur, n), cur + n))
}

/// Reads the string at `cur`.
pub fn read_string(b: &[u8], cur: usize) -> (r: Result<(String, usize), GgufError>)
    requires
        cur <= b@.len(),
    ensures
        match r {
            Ok((s, p)) => read_str(b@, cur as int) == Ok::<_, GgufError>((s@, p as int)) && p
                <= b@.len(),
            Err(e) => read_str(b@, cur as int) == Err::<(Seq<char>, int), _>(e),
        },
{
    let (n, p): (u64, usize) = match read_number(b, cur, 8) {
        Ok(x) => x,
        Err(e) => return Err(e),
    };
    let len: usize = b.len();
    if n > (len - p) as u64 {
        return Err(GgufError::PastEof { at: p as u64, n });
    }
    let end: usize = p + n as usize;
    let text = vstd::slice::slice_subrange(b, p, end);
    match text_of_utf8(text) {
        Some(s) => Ok((s, end)),
        None => Err(GgufError::NotUtf8),
    }
}

/// Reads the fixed-width value of type `t` at `cur`.
fn read_scalar(b: &[u8], cur: usize, t: GgufType) -> (r: Result<(GgufValue, usize), GgufError>)
    requires
        cur <= b@.len(),
        !(t is String),
        !(t is Array),
    ensures
        match r {
            Ok((v, p)) => read_val(b@, cur as int, t) == Ok::<_, GgufError>((v@, p as int)) && p
                <= b@.len(),
            Err(e) => read_val(b@, cur as int, t) == Err::<(ValueModel, int), _>(e),
        },
{
    proof {
        bytes::lemma_pow256();
    }
    let width: usize = match t {
        GgufType::U8 => 1,
        GgufType::I8 => 1,
        GgufType::U16 => 2,
        GgufType::I16 => 2,
        GgufType::U32 => 4,
        GgufType::I32 => 4,
        GgufType::F32 => 4,
        GgufType::Bool => 1,
        _ => 8,
    };
    let (n, p): (u64, usize) = match read_number(b, cur, width) {
        Ok(x) => x,
        Err(e) => return Err(e),
    };
    let v = match t {
        GgufType::U8 => GgufValue::U8(n as u8),
        GgufType::I8 => GgufValue::I8(to_i8(n as u8)),
        GgufType::U16 => GgufValue::U16(n as u16),
        GgufType::I16 => GgufValue::I16(to_i16(n as u16)),
        GgufType::U32 => GgufValue::U32(n as u32),
        GgufType::I32 => GgufValue::I32(to_i32(n as u32)),
        GgufType::F32 => GgufValue::F32(n as u32),
        GgufType::Bool => GgufValue::Bool(n != 0),
        GgufType::I64 => GgufValue::I64(to_i64(n)),
        GgufType::F64 => GgufValue::F64(n),
        _ => GgufValue::U64(n),
    };
    Ok((v, p))
}

/// Reads the value of type `t` at `cur`.
pub fn read_value(b: &[u8], cur: usize, t: GgufType) -> (r: Result<(GgufValue, usize), GgufError>)
    requires
        cur <= b@.len(),
    ensures
        match r {
            Ok((v, p)) => read_val(b@, cur as int, t) == Ok::<_, GgufError>((v@, p as int)) && p
                <= b@.len(),
            Err(e) => read_val(b@, cur as int, t) == Err::<(ValueModel, int), _>(e),
        },
    decreases b@.len() - cur,
{
    match t {
        GgufType::String => match read_string(b, cur) {
            Ok((s, p)) => Ok((GgufValue::String(s), p)),
            Err(e) => Err(e),
        },
        GgufType::Array => {
            let (c, p): (u64, usize) = match read_number(b, cur, 4) {
                Ok(x) => x,
                Err(e) => return Err(e),
            };
            proof {
                bytes::lemma_pow256();
            }
            let elem = match GgufType::from_u32(c as u32) {
                Ok(x) => x,
                Err(e) => return Err(e),
            };
            let (n, q): (u64, usize) = match read_number(b, p, 8) {
                Ok(x) => x,
                Err(e) => return Err(e),
            };
            let mut items: Vec<GgufValue> = Vec::new();
            let mut at: usize = q;
            let mut i: u64 = 0;
            let ghost whole = read_vals(b@, q as int, elem, n as nat);
            proof {
                let r = read_vals(b@, q as int, elem, n as nat);
                if r is Ok {
                    assert(Seq::<ValueModel>::empty() + r->Ok_0.0 =~= r->Ok_0.0);
                }
            }
            while i < n
                invariant
                    i <= n,
                    cur < q <= at <= b@.len(),
                    whole == prepended(
                        items_model(items@),
                        read_vals(b@, at as int, elem, (n - i) as nat),
                    ),
                    match whole {
                        Err(e) => read_val(b@, cur as int, t) == Err::<(ValueModel, int), _>(e),
                        Ok(_) => true,
                    },
                decreases n - i,
            {
                proof {
                    lemma_read_val_advances(b@, at as int, elem);
                }
                match read_value(b, at, elem) {
                    Err(e) => {
                        return Err(e);
                    },
                    Ok((v, next)) => {
                        let ghost had = items@;
                        let ghost tail = read_vals(b@, next as int, elem, (n - i - 1) as nat);
                        items.push(v);
                        proof {
                            assert(items@.drop_last() =~= had);
                            if tail is Ok {
                                assert(items_model(had) + (seq![v@] + tail->Ok_0.0) =~= items_model(
                                    items@,
                                ) + tail->Ok_0.0);
                            }
                        }
                        at = next;
                        i = i + 1;
                    },
                }
            }
            assert(items_model(items@) + Seq::<ValueModel>::empty() =~= items_model(items@));
            Ok((GgufValue::Array { elem, items }, at))
        },
        _ => read_scalar(b, cur, t),
    }
}

/// Appends a string.
pub fn write_string(buf: &mut Vec<u8>, s: &str)
    ensures
        final(buf)@ == old(buf)@ + str_bytes(s@),
{
    let text = s.as_bytes();
    push_le(buf, text.len() as u64, 8);
    push_all(buf, text);
    assert(buf@ =~= old(buf)@ + str_bytes(s@));
}

/// Appends the bytes `s`.
pub fn push_all(buf: &mut Vec<u8>, s: &[u8])
    ensures
        final(buf)@ == old(buf)@ + s@,
{
    let n: usize = s.len();
    let mut i: usize = 0;
    assert(old(buf)@ + s@.subrange(0, 0) =~= buf@);
    while i < n
        invariant
            i <= n == s@.len(),
            buf@ == old(buf)@ + s@.subrange(0, i as int),
        decreases n - i,
    {
        buf.push(s[i]);
        i = i + 1;
        assert(buf@ =~= old(buf)@ + s@.subrange(0, i as int));
    }
    assert(s@.subrange(0, n as int) =~= s@);
}

/// The type of a value.
pub fn value_type(v: &GgufValue) -> (r: GgufType)
    ensures
        r == type_of(v@),
{
    match v {
        GgufValue::U8(_) => GgufType::U8,
        GgufValue::I8(_) => GgufType::I8,
        GgufValue::U16(_) => GgufType::U16,
        GgufValue::I16(_) => GgufType::I16,
        GgufValue::U32(_) => GgufType::U32,
        GgufValue::I32(_) => GgufType::I32,
        GgufValue::F32(_) => GgufType::F32,
        GgufValue::Bool(_) => GgufType::Bool,
        GgufValue::String(_) => GgufType::String,
        GgufValue::U64(_) => GgufType::U64,
        GgufValue::I64(_) => GgufType::I64,
        GgufValue::F64(_) => GgufType::F64,
        GgufValue::Array { .. } => GgufType::Array,
    }
}

/// Appends a value, without its type.
pub fn write_value(buf: &mut Vec<u8>, v: &GgufValue)
    ensures
        final(buf)@ == old(buf)@ + value_bytes(v@),
    decreases *v,
{
    match v {
        GgufValue::U8(x) => push_le(buf, *x as u64, 1),
        GgufValue::I8(x) => push_le(buf, of_i8(*x) as u64, 1),
        GgufValue::U16(x) => push_le(buf, *x as u64, 2),
        GgufValue::I16(x) => push_le(buf, of_i16(*x) as u64, 2),
        GgufValue::U32(x) => push_le(buf, *x as u64, 4),
        GgufValue::I32(x) => push_le(buf, of_i32(*x) as u64, 4),
        GgufValue::F32(x) => push_le(buf, *x as u64, 4),
        GgufValue::Bool(x) => push_le(
            buf,
            if *x {
                1
            } else {
                0
            },
            1,
        ),
        GgufValue::String(s) => write_string(buf, s.as_str()),
        GgufValue::U64(x) => push_le(buf, *x, 8),
        GgufValue::I64(x) => push_le(buf, of_i64(*x), 8),
        GgufValue::F64(x) => push_le(buf, *x, 8),
        GgufValue::Array { elem, items } => {
            push_le(buf, elem.to_u32() as u64, 4);
            push_le(buf, items.len() as u64, 8);
            let ghost head = buf@;
            let ghost model = items_model(items@);
            proof {
                lemma_items_model(items@);
            }
            let n: usize = items.len();
            let mut i: usize = 0;
            assert(model.subrange(0, n as int) =~= model);
            while i < n
                invariant
                    i <= n == items@.len(),
                    *v == (GgufValue::Array { elem: *elem, items: *items }),
                    model == items_model(items@),
                    model.len() == n,
                    forall|j: int| 0 <= j < n ==> #[trigger] model[j] == value_model(items@[j]),
                    buf@ + items_bytes(model.subrange(i as int, n as int)) == head + items_bytes(
                        model,
                    ),
                decreases n - i,
            {
                let ghost mid = buf@;
                let ghost tail = model.subrange(i as int, n as int);
                assert(tail.drop_first() =~= model.subrange(i + 1, n as int));
                assert(tail[0] == value_model(items@[i as int]));
                assert(decreases_to!(*v => v->items));
                assert(decreases_to!(v->items => v->items@[i as int]));
                write_value(buf, &items[i]);
                assert(mid + items_bytes(tail) =~= buf@ + items_bytes(tail.drop_first()));
                i = i + 1;
            }
            assert(buf@ + items_bytes(model.subrange(n as int, n as int)) =~= buf@);
            assert(buf@ =~= old(buf)@ + value_bytes(v@));
        },
    }
}

impl GgufValue {
    /// The text of a string value.
    pub fn as_str(&self) -> (r: Option<&str>)
        ensures
            match self@ {
                ValueModel::Str(s) => r is Some && r->0@ == s,
                _ => r is None,
            },
    {
        if let GgufValue::String(s) = self {
            Some(s.as_str())
        } else {
            None
        }
    }

    /// A 32-bit integer value; a signed one by its bits.
    pub fn as_u32(&self) -> (r: Option<u32>)
        ensures
            r == u32_of(self@),
    {
        match self {
            GgufValue::U32(v) => Some(*v),
            GgufValue::I32(v) => Some(of_i32(*v)),
            _ => None,
        }
    }

    /// A number as single-precision bits: a float as it is or rounded, a 32-bit integer rounded.
    pub fn as_f32(&self) -> (r: Option<u32>)
        ensures
            match self@ {
                ValueModel::F32(v) => r == Some(v),
                ValueModel::F64(v) => r is Some && minifloat::double_narrows(v, r->0),
                ValueModel::I32(v) => r is Some && integer_rounds(v as int, r->0),
                ValueModel::U32(v) => r is Some && integer_rounds(v as int, r->0),
                _ => r is None,
            },
    {
        match self {
            GgufValue::F32(v) => Some(*v),
            GgufValue::F64(v) => Some(minifloat::narrow_double(*v)),
            GgufValue::I32(v) => if *v >= 0 {
                Some(minifloat::integer_to_f32(*v as u32))
            } else {
                let n: u32 = (-(*v as i64)) as u32;
                Some(minifloat::integer_to_f32(n) + minifloat::F32_SIGN)
            },
            GgufValue::U32(v) => Some(minifloat::integer_to_f32(*v)),
            _ => None,
        }
    }

    /// The element type and the items of an array value.
    pub fn as_array(&self) -> (r: Option<(&GgufType, &[GgufValue])>)
        ensures
            match self@ {
                ValueModel::Array(elem, items) => r matches Some((e, s)) && *e == elem
                    && items_model(s@) == items,
                _ => r is None,
            },
    {
        if let GgufValue::Array { elem, items } = self {
            Some((elem, items.as_slice()))
        } else {
            None
        }
    }
}

/// `r` is the single-precision pattern nearest to the integer `n`.
pub open spec fn integer_rounds(n: int, r: u32) -> bool {
    let a: nat = if n < 0 {
        (-n) as nat
    } else {
        n as nat
    };
    &&& minifloat::f32_neg(r) == (n < 0)
    &&& minifloat::f32_abs(r) < minifloat::F32_INF
    &&& minifloat::nearest_even(
        a * vstd::arithmetic::power2::pow2(149),
        minifloat::f32_abs(r) as nat,
        23,
        0,
        minifloat::F32_INF as nat,
    )
}

/// A copy of a value.
pub fn copy_value(v: &GgufValue) -> (r: GgufValue)
    ensures
        r@ == v@,
    decreases *v,
{
    match v {
        GgufValue::U8(x) => GgufValue::U8(*x),
        GgufValue::I8(x) => GgufValue::I8(*x),
        GgufValue::U16(x) => GgufValue::U16(*x),
        GgufValue::I16(x) => GgufValue::I16(*x),
        GgufValue::U32(x) => GgufValue::U32(*x),
        GgufValue::I32(x) => GgufValue::I32(*x),
        GgufValue::F32(x) => GgufValue::F32(*x),
        GgufValue::Bool(x) => GgufValue::Bool(*x),
        GgufValue::String(s) => GgufValue::String(s.clone()),
        GgufValue::U64(x) => GgufValue::U64(*x),
        GgufValue::I64(x) => GgufValue::I64(*x),
        GgufValue::F64(x) => GgufValue::F64(*x),
        GgufValue::Array { elem, items } => {
            let mut out: Vec<GgufValue> = Vec::new();
            let n: usize = items.len();
            let mut i: usize = 0;
            while i < n
                invariant
                    i <= n == items@.len(),
                    *v == (GgufValue::Array { elem: *elem, items: *items }),
                    out@.len() == i,
                    forall|j: int|
                        0 <= j < i ==> value_model(#[trigger] out@[j]) == value_model(items@[j]),
                decreases n - i,
            {
                assert(decreases_to!(*v => v->items));
                assert(decreases_to!(v->items => v->items@[i as int]));
                out.push(copy_value(&items[i]));
                i = i + 1;
            }
            proof {
                lemma_items_model(out@);
                lemma_items_model(items@);
                assert(items_model(out@) =~= items_model(items@));
            }
            GgufValue::Array { elem: *elem, items: out }
        },
    }
}

impl Clone for GgufValue {
    fn clone(&self) -> (r: GgufValue)
        ensures
            r@ == self@,
    {
        copy_value(self)
    }
}

/// The 32 bits of an integer value of that width.
pub open spec fn u32_of(v: ValueModel) -> Option<u32> {
    match v {
        ValueModel::U32(x) => Some(x),
        ValueModel::I32(x) => Some(bytes::unsigned_of(x as int, 0x8000_0000) as u32),
        _ => None,
    }
}

} // verus!
