//! The safetensors container: a JSON header and the tensors' bytes.
//!
//! A file is the header's length as `u64`, the header, and the bytes of the tensors. The header
//! maps each tensor's name to its element type, its shape and its range in those bytes; under
//! `__metadata__` it may hold a table of strings.
use vstd::prelude::*;
use crate::blockfloat;
use crate::blockfloat::{e4m3_to_f32, e5m2_to_f32};
use crate::bytes;
use crate::bytes::le_at;
use crate::gguf::geometry;
use crate::gguf::geometry::count_elems;
use crate::json;
use crate::json::{Json, JsonModel};
use crate::minifloat;
use crate::names;
use crate::names::NameMap;
use crate::text;

pub mod laws;
pub mod load;
pub mod sharded;
pub mod shards;

verus! {

/// The type of a tensor's elements.
#[derive(Debug, Clone, Copy, PartialEq, Eq, Structural)]
pub enum StDtype {
    Bool,
    U8,
    I8,
    F8E5M2,
    F8E4M3,
    I16,
    U16,
    F16,
    BF16,
    I32,
    U32,
    F32,
    F64,
    I64,
    U64,
}

impl StDtype {
    /// The name of the type in a header.
    pub open spec fn name_of(self) -> Seq<char> {
        match self {
            StDtype::Bool => "BOOL"@,
            StDtype::U8 => "U8"@,
            StDtype::I8 => "I8"@,
            StDtype::F8E5M2 => "F8_E5M2"@,
            StDtype::F8E4M3 => "F8_E4M3"@,
            StDtype::I16 => "I16"@,
            StDtype::U16 => "U16"@,
            StDtype::F16 => "F16"@,
            StDtype::BF16 => "BF16"@,
            StDtype::I32 => "I32"@,
            StDtype::U32 => "U32"@,
            StDtype::F32 => "F32"@,
            StDtype::F64 => "F64"@,
            StDtype::I64 => "I64"@,
            StDtype::U64 => "U64"@,
        }
    }

    /// The bytes of one element.
    pub open spec fn size_of(self) -> nat {
        match self {
            StDtype::Bool => 1,
            StDtype::U8 => 1,
            StDtype::I8 => 1,
            StDtype::F8E5M2 => 1,
            StDtype::F8E4M3 => 1,
            StDtype::I16 => 2,
            StDtype::U16 => 2,
            StDtype::F16 => 2,
            StDtype::BF16 => 2,
            StDtype::I32 => 4,
            StDtype::U32 => 4,
            StDtype::F32 => 4,
            StDtype::F64 => 8,
            StDtype::I64 => 8,
            StDtype::U64 => 8,
        }
    }

    /// The type with this name.
    pub open spec fn named(s: Seq<char>) -> Option<StDtype> {
        if s == "BOOL"@ {
            Some(StDtype::Bool)
        } else if s == "U8"@ {
            Some(StDtype::U8)
        } else if s == "I8"@ {
            Some(StDtype::I8)
        } else if s == "F8_E5M2"@ {
            Some(StDtype::F8E5M2)
        } else if s == "F8_E4M3"@ {
            Some(StDtype::F8E4M3)
        } else if s == "I16"@ {
            Some(StDtype::I16)
        } else if s == "U16"@ {
            Some(StDtype::U16)
        } else if s == "F16"@ {
            Some(StDtype::F16)
        } else if s == "BF16"@ {
            Some(StDtype::BF16)
        } else if s == "I32"@ {
            Some(StDtype::I32)
        } else if s == "U32"@ {
            Some(StDtype::U32)
        } else if s == "F32"@ {
            Some(StDtype::F32)
        } else if s == "F64"@ {
            Some(StDtype::F64)
        } else if s == "I64"@ {
            Some(StDtype::I64)
        } else if s == "U64"@ {
            Some(StDtype::U64)
        } else {
            None
        }
    }

    /// Types whose elements are floats.
    pub open spec fn floating(self) -> bool {
        self == StDtype::F16 || self == StDtype::BF16 || self == StDtype::F32 || self
            == StDtype::F64 || self == StDtype::F8E4M3 || self == StDtype::F8E5M2
    }

    /// The type with this name in a header.
    pub fn parse(s: &str) -> (r: Option<StDtype>)
        ensures
            r == StDtype::named(s@),
    {
        if text::same(s, "BOOL") {
            Some(StDtype::Bool)
        } else if text::same(s, "U8") {
            Some(StDtype::U8)
        } else if text::same(s, "I8") {
            Some(StDtype::I8)
        } else if text::same(s, "F8_E5M2") {
            Some(StDtype::F8E5M2)
        } else if text::same(s, "F8_E4M3") {
            Some(StDtype::F8E4M3)
        } else if text::same(s, "I16") {
            Some(StDtype::I16)
        } else if text::same(s, "U16") {
            Some(StDtype::U16)
        } else if text::same(s, "F16") {
            Some(StDtype::F16)
        } else if text::same(s, "BF16") {
            Some(StDtype::BF16)
        } else if text::same(s, "I32") {
            Some(StDtype::I32)
        } else if text::same(s, "U32") {
            Some(StDtype::U32)
        } else if text::same(s, "F32") {
            Some(StDtype::F32)
        } else if text::same(s, "F64") {
            Some(StDtype::F64)
        } else if text::same(s, "I64") {
            Some(StDtype::I64)
        } else if text::same(s, "U64") {
            Some(StDtype::U64)
        } else {
            None
        }
    }

    /// The bytes of one element.
    pub fn size(self) -> (r: usize)
        ensures
            r == self.size_of(),
    {
        match self {
            StDtype::Bool => 1,
            StDtype::U8 => 1,
            StDtype::I8 => 1,
            StDtype::F8E5M2 => 1,
            StDtype::F8E4M3 => 1,
            StDtype::I16 => 2,
            StDtype::U16 => 2,
            StDtype::F16 => 2,
            StDtype::BF16 => 2,
            StDtype::I32 => 4,
            StDtype::U32 => 4,
            StDtype::F32 => 4,
            StDtype::F64 => 8,
            StDtype::I64 => 8,
            StDtype::U64 => 8,
        }
    }

    /// The name of the type in a header.
    pub fn name(self) -> (r: &'static str)
        ensures
            r@ == self.name_of(),
    {
        match self {
            StDtype::Bool => "BOOL",
            StDtype::U8 => "U8",
            StDtype::I8 => "I8",
            StDtype::F8E5M2 => "F8_E5M2",
            StDtype::F8E4M3 => "F8_E4M3",
            StDtype::I16 => "I16",
            StDtype::U16 => "U16",
            StDtype::F16 => "F16",
            StDtype::BF16 => "BF16",
            StDtype::I32 => "I32",
            StDtype::U32 => "U32",
            StDtype::F32 => "F32",
            StDtype::F64 => "F64",
            StDtype::I64 => "I64",
            StDtype::U64 => "U64",
        }
    }

    /// Whether the elements are floats.
    pub fn is_float(self) -> (r: bool)
        ensures
            r == self.floating(),
    {
        match self {
            StDtype::F16 => true,
            StDtype::BF16 => true,
            StDtype::F32 => true,
            StDtype::F64 => true,
            StDtype::F8E4M3 => true,
            StDtype::F8E5M2 => true,
            _ => false,
        }
    }
}

/// The name of every type is read as that type.
pub proof fn law_dtype_names(d: StDtype)
    ensures
        StDtype::named(d.name_of()) == Some(d),
{
    reveal_strlit("BOOL");
    reveal_strlit("U8");
    reveal_strlit("I8");
    reveal_strlit("F8_E5M2");
    reveal_strlit("F8_E4M3");
    reveal_strlit("I16");
    reveal_strlit("U16");
    reveal_strlit("F16");
    reveal_strlit("BF16");
    reveal_strlit("I32");
    reveal_strlit("U32");
    reveal_strlit("F32");
    reveal_strlit("F64");
    reveal_strlit("I64");
    reveal_strlit("U64");
    let n = d.name_of();
    assert(n.len() > 0);
    assert(d == StDtype::Bool ==> n.len() == 4 && n[0] == 'B' && n[1] == 'O' && n[2] == 'O' && n[3] == 'L');
    assert(d == StDtype::U8 ==> n.len() == 2 && n[0] == 'U' && n[1] == '8');
    assert(d == StDtype::I8 ==> n.len() == 2 && n[0] == 'I' && n[1] == '8');
    assert(d == StDtype::F8E5M2 ==> n.len() == 7 && n[0] == 'F' && n[1] == '8' && n[2] == '_' && n[3] == 'E' && n[4] == '5' && n[5] == 'M' && n[6] == '2');
    assert(d == StDtype::F8E4M3 ==> n.len() == 7 && n[0] == 'F' && n[1] == '8' && n[2] == '_' && n[3] == 'E' && n[4] == '4' && n[5] == 'M' && n[6] == '3');
    assert(d == StDtype::I16 ==> n.len() == 3 && n[0] == 'I' && n[1] == '1' && n[2] == '6');
    assert(d == StDtype::U16 ==> n.len() == 3 && n[0] == 'U' && n[1] == '1' && n[2] == '6');
    assert(d == StDtype::F16 ==> n.len() == 3 && n[0] == 'F' && n[1] == '1' && n[2] == '6');
    assert(d == StDtype::BF16 ==> n.len() == 4 && n[0] == 'B' && n[1] == 'F' && n[2] == '1' && n[3] == '6');
    assert(d == StDtype::I32 ==> n.len() == 3 && n[0] == 'I' && n[1] == '3' && n[2] == '2');
    assert(d == StDtype::U32 ==> n.len() == 3 && n[0] == 'U' && n[1] == '3' && n[2] == '2');
    assert(d == StDtype::F32 ==> n.len() == 3 && n[0] == 'F' && n[1] == '3' && n[2] == '2');
    assert(d == StDtype::F64 ==> n.len() == 3 && n[0] == 'F' && n[1] == '6' && n[2] == '4');
    assert(d == StDtype::I64 ==> n.len() == 3 && n[0] == 'I' && n[1] == '6' && n[2] == '4');
    assert(d == StDtype::U64 ==> n.len() == 3 && n[0] == 'U' && n[1] == '6' && n[2] == '4');
}

/// A tensor's entry in a header: the outermost dimension first, and the range of its bytes behind
/// the header.
#[derive(Debug)]
pub struct StEntry {
    pub name: String,
    pub dtype: StDtype,
    pub shape: Vec<u64>,
    pub start: usize,
    pub end: usize,
}

/// What a [`StEntry`] stands for.
pub struct EntryModel {
    pub name: Seq<char>,
    pub dtype: StDtype,
    pub shape: Seq<u64>,
    pub start: nat,
    pub end: nat,
}

impl View for StEntry {
    type V = EntryModel;

    open spec fn view(&self) -> EntryModel {
        EntryModel {
            name: self.name@,
            dtype: self.dtype,
            shape: self.shape@,
            start: self.start as nat,
            end: self.end as nat,
        }
    }
}

impl StEntry {
    /// The number of elements; one for a scalar.
    pub fn n_elems(&self) -> (r: u64)
        requires
            geometry::elem_count(self.shape@) is Some,
        ensures
            geometry::elem_count(self.shape@) == Some(r),
    {
        match count_elems(self.shape.as_slice()) {
            Some(n) => n,
            None => 0,
        }
    }

    /// Rows and columns: the first dimension and the product of the others, one row for a vector,
    /// one element for a scalar.
    pub fn rows_cols(&self) -> (r: (usize, usize))
        requires
            self.shape@.len() >= 2 ==> geometry::elem_count(self.shape@.drop_first()) is Some,
        ensures
            self.shape@.len() == 0 ==> r == (1usize, 1usize),
            self.shape@.len() == 1 ==> r == (1usize, self.shape@[0] as usize),
            self.shape@.len() >= 2 ==> r == (
                self.shape@[0] as usize,
                geometry::elem_count(self.shape@.drop_first())->0 as usize,
            ),
    {
        let n: usize = self.shape.len();
        if n == 0 {
            (1, 1)
        } else if n == 1 {
            (1, self.shape[0] as usize)
        } else {
            let rest = vstd::slice::slice_subrange(self.shape.as_slice(), 1, n);
            assert(rest@ =~= self.shape@.drop_first());
            let cols: u64 = match count_elems(rest) {
                Some(c) => c,
                None => 0,
            };
            (self.shape[0] as usize, cols as usize)
        }
    }
}

/// Rows times columns is the number of elements, wherever both can be counted: always where the
/// number of elements can be and the first dimension is not zero.
pub proof fn law_rows_times_columns(shape: Seq<u64>)
    requires
        shape.len() > 0,
        geometry::elem_count(shape) is Some,
        shape[0] > 0 || geometry::elem_count(shape.drop_first()) is Some,
    ensures
        geometry::elem_count(shape.drop_first()) matches Some(cols) && shape[0] * cols
            == geometry::elem_count(shape)->0,
    decreases shape.len(),
{
    let rest = shape.drop_first();
    let shorter = shape.drop_last();
    if shape.len() == 1 {
        assert(rest =~= Seq::empty());
        assert(shorter =~= Seq::empty());
        assert(geometry::elem_count(shorter) == Some(1u64));
        assert(geometry::elem_count(rest) == Some(1u64));
        assert(shape.last() == shape[0]);
        assert(1 * shape[0] == shape[0] * 1);
        assert(geometry::elem_count(shape) == Some(shape[0]));
    } else {
        assert(shorter.drop_first() =~= rest.drop_last());
        assert(shorter[0] == shape[0] && rest.last() == shape.last());
        law_rows_times_columns(shorter);
        let c = geometry::elem_count(shorter.drop_first())->0;
        let (r, l) = (shape[0], shape.last());
        assert(r * (c * l) == (r * c) * l) by (nonlinear_arith);
        assert(r > 0 ==> c * l <= r * (c * l)) by (nonlinear_arith)
            requires
                c >= 0,
                l >= 0,
        ;
        assert(geometry::elem_count(shorter) == Some((r * c) as u64));
        assert(geometry::elem_count(shape) == Some(((r * c) * l) as u64));
        assert(geometry::elem_count(rest) == Some((c * l) as u64));
    }
}

/// What is wrong with a file, or with a request for a tensor.
#[derive(Debug, Clone, Copy, PartialEq, Eq, Structural)]
pub enum StErrorKind {
    /// Fewer than eight bytes.
    TooShort,
    /// The header ends behind the file.
    HeaderPastEof(u64),
    /// The header is no JSON.
    NotJson,
    /// The header is no JSON object.
    NotAnObject,
    MissingDtype,
    UnknownDtype,
    MissingShape,
    /// A dimension that is no whole number.
    BadShape,
    MissingOffsets,
    /// Another number of offsets than two.
    OffsetsNotTwo,
    /// The range of a tensor is reversed or ends behind the file.
    OffsetsPastEof { start: u64, end: u64 },
    NoSuchTensor,
    NotFloat(StDtype),
    /// A tensor without elements where one was needed.
    Empty,
}

/// What is wrong, and with which tensor; the name is empty where it is the file.
#[derive(Debug)]
pub struct StError {
    pub tensor: String,
    pub kind: StErrorKind,
}

/// The items of the list under a key.
pub open spec fn list_at(v: JsonModel, key: Seq<char>) -> Option<Seq<JsonModel>> {
    match v.get(key) {
        Some(JsonModel::List(items)) => Some(items),
        _ => None,
    }
}

/// The whole numbers in a list; none where an item is no such number.
pub open spec fn uints(items: Seq<JsonModel>) -> Option<Seq<u64>>
    decreases items.len(),
{
    if items.len() == 0 {
        Some(Seq::empty())
    } else {
        match uints(items.drop_last()) {
            None => None,
            Some(s) => match items.last().uint() {
                None => None,
                Some(n) => Some(s.push(n)),
            },
        }
    }
}

/// A whole number, or zero.
pub open spec fn uint_or_zero(v: JsonModel) -> u64 {
    match v.uint() {
        Some(n) => n,
        None => 0,
    }
}

/// The entry that a header holds under `key`, in a file with `blob` bytes behind the header.
pub open spec fn entry_of(key: Seq<char>, v: JsonModel, blob: nat) -> Result<
    EntryModel,
    StErrorKind,
> {
    match v.text_at("dtype"@) {
        None => Err(StErrorKind::MissingDtype),
        Some(d) => match StDtype::named(d) {
            None => Err(StErrorKind::UnknownDtype),
            Some(dtype) => match list_at(v, "shape"@) {
                None => Err(StErrorKind::MissingShape),
                Some(dims) => match uints(dims) {
                    None => Err(StErrorKind::BadShape),
                    Some(shape) => match list_at(v, "data_offsets"@) {
                        None => Err(StErrorKind::MissingOffsets),
                        Some(offs) => if offs.len() != 2 {
                            Err(StErrorKind::OffsetsNotTwo)
                        } else {
                            let start = uint_or_zero(offs[0]);
                            let end = uint_or_zero(offs[1]);
                            if end < start || end > blob {
                                Err(StErrorKind::OffsetsPastEof { start, end })
                            } else {
                                Ok(
                                    EntryModel {
                                        name: key,
                                        dtype,
                                        shape,
                                        start: start as nat,
                                        end: end as nat,
                                    },
                                )
                            }
                        },
                    },
                },
            },
        },
    }
}

/// The entries that the members of a header describe; of two members with one key the later. An
/// error comes with the key of the first member that has one.
pub open spec fn entries_of(pairs: Seq<(Seq<char>, JsonModel)>, blob: nat) -> Result<
    Map<Seq<char>, EntryModel>,
    (Seq<char>, StErrorKind),
>
    decreases pairs.len(),
{
    if pairs.len() == 0 {
        Ok(Map::empty())
    } else {
        match entries_of(pairs.drop_last(), blob) {
            Err(e) => Err(e),
            Ok(m) => if pairs.last().0 == "__metadata__"@ {
                Ok(m)
            } else {
                match entry_of(pairs.last().0, pairs.last().1, blob) {
                    Err(k) => Err((pairs.last().0, k)),
                    Ok(e) => Ok(m.insert(pairs.last().0, e)),
                }
            },
        }
    }
}

/// The strings among the members of an object.
pub open spec fn strings_of(pairs: Seq<(Seq<char>, JsonModel)>) -> Map<Seq<char>, Seq<char>>
    decreases pairs.len(),
{
    if pairs.len() == 0 {
        Map::empty()
    } else {
        match pairs.last().1.text() {
            Some(s) => strings_of(pairs.drop_last()).insert(pairs.last().0, s),
            None => strings_of(pairs.drop_last()),
        }
    }
}

/// The table of strings under `__metadata__`, all members of that name taken together.
pub open spec fn metadata_of(pairs: Seq<(Seq<char>, JsonModel)>) -> Map<Seq<char>, Seq<char>>
    decreases pairs.len(),
{
    if pairs.len() == 0 {
        Map::empty()
    } else if pairs.last().0 == "__metadata__"@ {
        match pairs.last().1 {
            JsonModel::Object(inner) => metadata_of(pairs.drop_last()).union_prefer_right(
                strings_of(inner),
            ),
            _ => metadata_of(pairs.drop_last()),
        }
    } else {
        metadata_of(pairs.drop_last())
    }
}

/// The models of the entries of a map.
pub open spec fn entry_models(m: Map<Seq<char>, StEntry>) -> Map<Seq<char>, EntryModel> {
    m.map_values(|e: StEntry| e@)
}

/// The texts in a map.
pub open spec fn text_models(m: Map<Seq<char>, String>) -> Map<Seq<char>, Seq<char>> {
    m.map_values(|s: String| s@)
}

/// Every entry of a map has its key for a name and a range inside `blob` bytes, and none has the
/// name of the table of strings.
pub open spec fn entries_fit(m: Map<Seq<char>, StEntry>, blob: nat) -> bool {
    &&& !m.dom().contains("__metadata__"@)
    &&& forall|k: Seq<char>|
        #![trigger m[k]]
        m.dom().contains(k) ==> m[k].name@ == k && m[k].start <= m[k].end <= blob
}

/// Reads the dimensions in a list.
fn read_shape(items: &[Json]) -> (r: Option<Vec<u64>>)
    ensures
        match r {
            Some(v) => uints(json::list_model(items@)) == Some(v@),
            None => uints(json::list_model(items@)) is None,
        },
{
    let ghost m = json::list_model(items@);
    proof {
        json::lemma_list_model(items@);
    }
    let n: usize = items.len();
    let mut out: Vec<u64> = Vec::new();
    let mut i: usize = 0;
    assert(m.subrange(0, 0) =~= Seq::empty());
    assert(out@ =~= Seq::empty());
    while i < n
        invariant
            i <= n == items@.len(),
            m == json::list_model(items@),
            m.len() == n,
            forall|j: int| 0 <= j < n ==> #[trigger] m[j] == items@[j]@,
            uints(m.subrange(0, i as int)) == Some(out@),
        decreases n - i,
    {
        let ghost longer = m.subrange(0, i + 1);
        assert(longer.drop_last() =~= m.subrange(0, i as int));
        assert(longer.last() == m[i as int]);
        match items[i].as_u64() {
            Some(d) => {
                out.push(d);
            },
            None => {
                proof {
                    lemma_uints_none(m, i + 1);
                }
                return None;
            },
        }
        i = i + 1;
    }
    assert(m.subrange(0, n as int) =~= m);
    Some(out)
}

/// A list that has an item that is no number has one with more items, too.
proof fn lemma_uints_none(items: Seq<JsonModel>, k: int)
    requires
        0 <= k <= items.len(),
        uints(items.subrange(0, k)) is None,
    ensures
        uints(items) is None,
    decreases items.len() - k,
{
    if k == items.len() {
        assert(items.subrange(0, k) =~= items);
    } else {
        assert(items.subrange(0, k + 1).drop_last() =~= items.subrange(0, k));
        lemma_uints_none(items, k + 1);
    }
}

/// A header that has a fault has it with more members, too.
proof fn lemma_entries_error(pairs: Seq<(Seq<char>, JsonModel)>, blob: nat, k: int)
    requires
        0 <= k <= pairs.len(),
        entries_of(pairs.subrange(0, k), blob) is Err,
    ensures
        entries_of(pairs, blob) == entries_of(pairs.subrange(0, k), blob),
    decreases pairs.len() - k,
{
    if k == pairs.len() {
        assert(pairs.subrange(0, k) =~= pairs);
    } else {
        assert(pairs.subrange(0, k + 1).drop_last() =~= pairs.subrange(0, k));
        lemma_entries_error(pairs, blob, k + 1);
    }
}

/// The list under a key.
fn get_list<'b>(v: &'b Json, key: &str) -> (r: Option<&'b [Json]>)
    ensures
        match r {
            Some(s) => list_at(v@, key@) == Some(json::list_model(s@)),
            None => list_at(v@, key@) is None,
        },
{
    match v.get(key) {
        Some(Json::List(items)) => Some(items.as_slice()),
        _ => None,
    }
}

/// Reads the entry of one tensor.
pub fn read_entry(key: &str, v: &Json, blob: usize) -> (r: Result<StEntry, StErrorKind>)
    ensures
        match r {
            Ok(e) => entry_of(key@, v@, blob as nat) == Ok::<_, StErrorKind>(e@),
            Err(k) => entry_of(key@, v@, blob as nat) == Err::<EntryModel, _>(k),
        },
{
    let dtype = match v.str_at("dtype") {
        None => return Err(StErrorKind::MissingDtype),
        Some(d) => match StDtype::parse(d) {
            None => return Err(StErrorKind::UnknownDtype),
            Some(x) => x,
        },
    };
    let shape = match get_list(v, "shape") {
        None => return Err(StErrorKind::MissingShape),
        Some(items) => match read_shape(items) {
            None => return Err(StErrorKind::BadShape),
            Some(x) => x,
        },
    };
    let offs = match get_list(v, "data_offsets") {
        None => return Err(StErrorKind::MissingOffsets),
        Some(x) => x,
    };
    proof {
        json::lemma_list_model(offs@);
    }
    if offs.len() != 2 {
        return Err(StErrorKind::OffsetsNotTwo);
    }
    let start: u64 = match offs[0].as_u64() {
        Some(n) => n,
        None => 0,
    };
    let end: u64 = match offs[1].as_u64() {
        Some(n) => n,
        None => 0,
    };
    if end < start || end > blob as u64 {
        return Err(StErrorKind::OffsetsPastEof { start, end });
    }
    Ok(
        StEntry {
            name: key.to_owned(),
            dtype,
            shape,
            start: start as usize,
            end: end as usize,
        },
    )
}

/// Adds the strings of an object to a table.
fn add_strings(table: &mut NameMap<String>, pairs: &[(String, Json)])
    requires
        old(table).wf(),
    ensures
        final(table).wf(),
        text_models(final(table)@) == text_models(old(table)@).union_prefer_right(
            strings_of(json::pairs_model(pairs@)),
        ),
{
    let ghost m = json::pairs_model(pairs@);
    proof {
        json::lemma_pairs_model(pairs@);
    }
    let n: usize = pairs.len();
    let mut i: usize = 0;
    assert(text_models(table@) =~= text_models(old(table)@).union_prefer_right(
        strings_of(m.subrange(0, 0)),
    ));
    while i < n
        invariant
            i <= n == pairs@.len(),
            m == json::pairs_model(pairs@),
            m.len() == n,
            forall|j: int| 0 <= j < n ==> #[trigger] m[j] == (pairs@[j].0@, pairs@[j].1@),
            table.wf(),
            text_models(table@) == text_models(old(table)@).union_prefer_right(
                strings_of(m.subrange(0, i as int)),
            ),
        decreases n - i,
    {
        let ghost had = table@;
        let ghost longer = m.subrange(0, i + 1);
        assert(longer.drop_last() =~= m.subrange(0, i as int));
        assert(longer.last() == m[i as int]);
        match pairs[i].1.as_str() {
            Some(s) => {
                table.insert(pairs[i].0.clone(), s.to_owned());
                assert(text_models(table@) =~= text_models(had).insert(pairs@[i as int].0@, s@));
            },
            None => {},
        }
        assert(text_models(table@) =~= text_models(old(table)@).union_prefer_right(
            strings_of(longer),
        ));
        i = i + 1;
    }
    assert(m.subrange(0, n as int) =~= m);
}

/// Table of strings and entries of the header `header` of a file with `blob` bytes behind it.
pub fn read_header(header: &Json, blob: usize) -> (r: Result<
    (NameMap<String>, NameMap<StEntry>),
    StError,
>)
    ensures
        match header@ {
            JsonModel::Object(pairs) => match entries_of(pairs, blob as nat) {
                Ok(m) => r matches Ok((table, entries)) && {
                    &&& table.wf()
                    &&& text_models(table@) == metadata_of(pairs)
                    &&& entries.wf()
                    &&& entry_models(entries@) == m
                    &&& entries_fit(entries@, blob as nat)
                },
                Err((key, kind)) => r matches Err(e) && e.tensor@ == key && e.kind == kind,
            },
            _ => r matches Err(e) && e.tensor@.len() == 0 && e.kind == StErrorKind::NotAnObject,
        },
{
    let pairs = match header {
        Json::Object(p) => p,
        _ => return Err(StError { tensor: String::new(), kind: StErrorKind::NotAnObject }),
    };
    let ghost m = json::pairs_model(pairs@);
    proof {
        json::lemma_pairs_model(pairs@);
    }
    let mut table: NameMap<String> = NameMap::new();
    let mut entries: NameMap<StEntry> = NameMap::new();
    let n: usize = pairs.len();
    let mut i: usize = 0;
    assert(m.subrange(0, 0) =~= Seq::empty());
    assert(text_models(table@) =~= Map::empty());
    assert(entry_models(entries@) =~= Map::empty());
    while i < n
        invariant
            i <= n == pairs@.len(),
            header@ == JsonModel::Object(m),
            m == json::pairs_model(pairs@),
            m.len() == n,
            forall|j: int| 0 <= j < n ==> #[trigger] m[j] == (pairs@[j].0@, pairs@[j].1@),
            table.wf(),
            entries.wf(),
            text_models(table@) == metadata_of(m.subrange(0, i as int)),
            entries_of(m.subrange(0, i as int), blob as nat) == Ok::<
                _,
                (Seq<char>, StErrorKind),
            >(entry_models(entries@)),
            entries_fit(entries@, blob as nat),
        decreases n - i,
    {
        let ghost longer = m.subrange(0, i + 1);
        assert(longer.drop_last() =~= m.subrange(0, i as int));
        assert(longer.last() == m[i as int]);
        let key = pairs[i].0.as_str();
        if text::same(key, "__metadata__") {
            match &pairs[i].1 {
                Json::Object(inner) => {
                    add_strings(&mut table, inner.as_slice());
                },
                _ => {},
            }
        } else {
            match read_entry(key, &pairs[i].1, blob) {
                Ok(e) => {
                    let ghost had = entries@;
                    let ghost one = e@;
                    entries.insert(pairs[i].0.clone(), e);
                    proof {
                        assert(entry_models(entries@) =~= entry_models(had).insert(key@, one));
                        assert forall|k: Seq<char>|
                            #![trigger entries@[k]]
                            entries@.dom().contains(k) implies entries@[k].name@ == k
                            && entries@[k].start <= entries@[k].end <= blob by {
                            if k != key@ {
                                assert(had.dom().contains(k));
                                assert(had[k].name@ == k);
                            }
                        }
                    }
                },
                Err(kind) => {
                    proof {
                        lemma_entries_error(m, blob as nat, i + 1);
                    }
                    return Err(StError { tensor: pairs[i].0.clone(), kind });
                },
            }
        }
        i = i + 1;
    }
    assert(m.subrange(0, n as int) =~= m);
    Ok((table, entries))
}

/// What a file says before its data.
pub struct StModel {
    pub data_start: nat,
    pub metadata: Map<Seq<char>, Seq<char>>,
    pub entries: Map<Seq<char>, EntryModel>,
}

/// What the file `b` says, given the tree that its header is read as.
pub open spec fn file_with_header(header: JsonModel, data_start: nat, len: nat) -> Result<
    StModel,
    (Seq<char>, StErrorKind),
> {
    match header {
        JsonModel::Object(pairs) => match entries_of(pairs, (len - data_start) as nat) {
            Ok(entries) => Ok(StModel { data_start, metadata: metadata_of(pairs), entries }),
            Err(e) => Err(e),
        },
        _ => Err((Seq::empty(), StErrorKind::NotAnObject)),
    }
}

/// What the file `b` says, or what is wrong with it.
pub open spec fn read_file(b: Seq<u8>) -> Result<StModel, (Seq<char>, StErrorKind)> {
    if b.len() < 8 {
        Err((Seq::empty(), StErrorKind::TooShort))
    } else {
        let n = bytes::le_value(b.subrange(0, 8));
        if 8 + n > b.len() {
            Err((Seq::empty(), StErrorKind::HeaderPastEof(n as u64)))
        } else {
            match json::json_read(b.subrange(8, 8 + n as int)) {
                None => Err((Seq::empty(), StErrorKind::NotJson)),
                Some(header) => file_with_header(header, 8 + n, b.len()),
            }
        }
    }
}

/// `r` is the single-precision pattern of element `i` of the bytes `b` of a tensor of floats.
pub open spec fn float_elem(dtype: StDtype, b: Seq<u8>, i: int, r: u32) -> bool {
    match dtype {
        StDtype::F32 => r == bytes::le_value(b.subrange(4 * i, 4 * i + 4)),
        StDtype::F64 => minifloat::double_narrows(
            bytes::le_value(b.subrange(8 * i, 8 * i + 8)) as u64,
            r,
        ),
        StDtype::F16 => minifloat::half_widens(
            bytes::le_value(b.subrange(2 * i, 2 * i + 2)) as u16,
            r,
        ),
        StDtype::BF16 => minifloat::bfloat_widens(
            bytes::le_value(b.subrange(2 * i, 2 * i + 2)) as u16,
            r,
        ),
        StDtype::F8E4M3 => blockfloat::e4m3_decodes(b[i], r),
        StDtype::F8E5M2 => blockfloat::e5m2_decodes(b[i], r),
        _ => false,
    }
}

/// `v` holds the elements in the bytes `b` of a tensor of floats; bytes that make no whole element
/// are left over.
pub open spec fn floats_of(dtype: StDtype, b: Seq<u8>, v: Seq<u32>) -> bool {
    &&& v.len() == b.len() / dtype.size_of()
    &&& forall|i: int| 0 <= i < v.len() ==> float_elem(dtype, b, i, #[trigger] v[i])
}

/// The elements in the bytes `b` of a tensor of floats.
pub fn widen_floats(dtype: StDtype, b: &[u8]) -> (r: Vec<u32>)
    requires
        dtype.floating(),
    ensures
        floats_of(dtype, b@, r@),
{
    let total: usize = b.len();
    let width: usize = dtype.size();
    let n: usize = total / width;
    proof {
        bytes::lemma_pow256();
    }
    let mut out: Vec<u32> = Vec::new();
    let mut i: usize = 0;
    while i < n
        invariant
            i <= n,
            total == b@.len(),
            dtype.floating(),
            dtype.size_of() == 1 ==> n <= total,
            dtype.size_of() == 2 ==> n * 2 <= total,
            dtype.size_of() == 4 ==> n * 4 <= total,
            dtype.size_of() == 8 ==> n * 8 <= total,
            bytes::pow256(2) == 0x1_0000,
            bytes::pow256(4) == 0x1_0000_0000,
            out@.len() == i,
            forall|k: int| 0 <= k < i ==> float_elem(dtype, b@, k, #[trigger] out@[k]),
        decreases n - i,
    {
        let x: u32 = match dtype {
            StDtype::F32 => le_at(b, i * 4, 4) as u32,
            StDtype::F64 => minifloat::narrow_double(le_at(b, i * 8, 8)),
            StDtype::F16 => minifloat::widen_half(le_at(b, i * 2, 2) as u16),
            StDtype::BF16 => minifloat::widen_bfloat(le_at(b, i * 2, 2) as u16),
            StDtype::F8E4M3 => e4m3_to_f32(b[i]),
            _ => e5m2_to_f32(b[i]),
        };
        out.push(x);
        i = i + 1;
    }
    out
}

/// A container over the bytes of a file.
#[derive(Debug)]
pub struct SafeTensors<'a> {
    pub data: &'a [u8],
    pub data_start: usize,
    pub metadata: NameMap<String>,
    pub entries: NameMap<StEntry>,
}

impl<'a> View for SafeTensors<'a> {
    type V = StModel;

    open spec fn view(&self) -> StModel {
        StModel {
            data_start: self.data_start as nat,
            metadata: text_models(self.metadata@),
            entries: entry_models(self.entries@),
        }
    }
}

impl<'a> SafeTensors<'a> {
    /// Names in order, and every entry's range inside the file.
    pub open spec fn wf(&self) -> bool {
        &&& self.data_start <= self.data@.len()
        &&& self.metadata.wf()
        &&& self.entries.wf()
        &&& entries_fit(self.entries@, (self.data@.len() - self.data_start) as nat)
    }

    /// The bytes of an entry.
    pub open spec fn range(&self, e: EntryModel) -> Seq<u8> {
        self.data@.subrange(self.data_start + e.start, self.data_start + e.end)
    }

    /// Reads the header of the file `data`.
    pub fn from_bytes(data: &'a [u8]) -> (r: Result<SafeTensors<'a>, StError>)
        ensures
            match r {
                Ok(s) => read_file(data@) == Ok::<_, (Seq<char>, StErrorKind)>(s@) && s.wf()
                    && s.data@ == data@,
                Err(e) => read_file(data@) == Err::<StModel, _>((e.tensor@, e.kind)),
            },
    {
        let len: usize = data.len();
        if len < 8 {
            return Err(StError { tensor: String::new(), kind: StErrorKind::TooShort });
        }
        let n: u64 = le_at(data, 0, 8);
        if n > (len - 8) as u64 {
            return Err(StError { tensor: String::new(), kind: StErrorKind::HeaderPastEof(n) });
        }
        let start: usize = 8 + n as usize;
        let header = match json::parse(vstd::slice::slice_subrange(data, 8, start)) {
            Some(h) => h,
            None => return Err(StError { tensor: String::new(), kind: StErrorKind::NotJson }),
        };
        SafeTensors::with_header(data, &header, start)
    }

    /// The container whose header, already read, ends before `start`.
    pub fn with_header(data: &'a [u8], header: &Json, start: usize) -> (r: Result<
        SafeTensors<'a>,
        StError,
    >)
        requires
            start <= data@.len(),
        ensures
            match r {
                Ok(s) => file_with_header(header@, start as nat, data@.len()) == Ok::<
                    _,
                    (Seq<char>, StErrorKind),
                >(s@) && s.wf() && s.data@ == data@,
                Err(e) => file_with_header(header@, start as nat, data@.len()) == Err::<
                    StModel,
                    _,
                >((e.tensor@, e.kind)),
            },
    {
        match read_header(header, data.len() - start) {
            Ok((metadata, entries)) => Ok(
                SafeTensors { data, data_start: start, metadata, entries },
            ),
            Err(e) => {
                assert(e.kind == StErrorKind::NotAnObject && !(header@ is Object) ==> e.tensor@
                    =~= Seq::<char>::empty());
                Err(e)
            },
        }
    }

    /// The names of the tensors, in order.
    pub fn names(&self) -> (r: Vec<&str>)
        ensures
            r@.len() == self.entries.keys().len(),
            forall|i: int| 0 <= i < r@.len() ==> (#[trigger] r@[i])@ == self.entries.keys()[i],
    {
        let mut out: Vec<&str> = Vec::new();
        let n: usize = self.entries.len();
        let mut i: usize = 0;
        while i < n
            invariant
                i <= n == self.entries.items@.len(),
                out@.len() == i,
                forall|j: int| 0 <= j < i ==> (#[trigger] out@[j])@ == self.entries.keys()[j],
            decreases n - i,
        {
            out.push(self.entries.items[i].0.as_str());
            i = i + 1;
        }
        out
    }

    /// The entry of a tensor.
    pub fn entry(&self, name: &str) -> (r: Option<&StEntry>)
        requires
            self.wf(),
        ensures
            match r {
                Some(e) => self@.entries.dom().contains(name@) && self@.entries[name@] == e@,
                None => !self@.entries.dom().contains(name@),
            },
    {
        self.entries.get(name)
    }

    /// Whether there is a tensor of this name.
    pub fn contains(&self, name: &str) -> (r: bool)
        requires
            self.wf(),
        ensures
            r == self@.entries.dom().contains(name@),
    {
        self.entries.contains(name)
    }

    /// The bytes of a tensor.
    pub fn bytes(&self, name: &str) -> (r: Result<&'a [u8], StError>)
        requires
            self.wf(),
        ensures
            match r {
                Ok(b) => self@.entries.dom().contains(name@) && b@ == self.range(
                    self@.entries[name@],
                ),
                Err(e) => !self@.entries.dom().contains(name@) && e.tensor@ == name@ && e.kind
                    == StErrorKind::NoSuchTensor,
            },
    {
        match self.entries.get(name) {
            Some(e) => {
                assert(self.entries@[name@].name@ == name@);
                let total: usize = self.data.len();
                assert(self.data_start + e.end <= total);
                Ok(
                    vstd::slice::slice_subrange(
                        self.data,
                        self.data_start + e.start,
                        self.data_start + e.end,
                    ),
                )
            },
            None => Err(
                StError { tensor: name.to_owned(), kind: StErrorKind::NoSuchTensor },
            ),
        }
    }

    /// The elements of a tensor of floats, as single-precision bits. Eight-bit floats are taken as
    /// they are, without a scale.
    pub fn to_f32(&self, name: &str) -> (r: Result<Vec<u32>, StError>)
        requires
            self.wf(),
        ensures
            if !self@.entries.dom().contains(name@) {
                r matches Err(e) && e.tensor@ == name@ && e.kind == StErrorKind::NoSuchTensor
            } else if !self@.entries[name@].dtype.floating() {
                r matches Err(e) && e.tensor@ == name@ && e.kind == StErrorKind::NotFloat(
                    self@.entries[name@].dtype,
                )
            } else {
                r matches Ok(v) && floats_of(
                    self@.entries[name@].dtype,
                    self.range(self@.entries[name@]),
                    v@,
                )
            },
    {
        let b = match self.bytes(name) {
            Ok(x) => x,
            Err(e) => return Err(e),
        };
        match self.entry(name) {
            Some(e) => {
                if !e.dtype.is_float() {
                    return Err(
                        StError {
                            tensor: name.to_owned(),
                            kind: StErrorKind::NotFloat(e.dtype),
                        },
                    );
                }
                Ok(widen_floats(e.dtype, b))
            },
            None => Err(
                StError { tensor: name.to_owned(), kind: StErrorKind::NoSuchTensor },
            ),
        }
    }

    /// The first element of a tensor of floats.
    pub fn scalar_f32(&self, name: &str) -> (r: Result<u32, StError>)
        requires
            self.wf(),
        ensures
            if !self@.entries.dom().contains(name@) {
                r matches Err(e) && e.tensor@ == name@ && e.kind == StErrorKind::NoSuchTensor
            } else {
                let m = self@.entries[name@];
                if !m.dtype.floating() {
                    r matches Err(e) && e.tensor@ == name@ && e.kind == StErrorKind::NotFloat(
                        m.dtype,
                    )
                } else if self.range(m).len() < m.dtype.size_of() {
                    r matches Err(e) && e.tensor@ == name@ && e.kind == StErrorKind::Empty
                } else {
                    r matches Ok(x) && float_elem(m.dtype, self.range(m), 0, x)
                }
            },
    {
        match self.to_f32(name) {
            Ok(v) => {
                if v.len() == 0 {
                    return Err(StError { tensor: name.to_owned(), kind: StErrorKind::Empty });
                }
                Ok(v[0])
            },
            Err(e) => Err(e),
        }
    }
}

} // verus!
