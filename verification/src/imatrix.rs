//! Importance matrices: for each tensor the accumulated squares of its inputs.
//!
//! A matrix comes as a model file, with the sums of a tensor under its name and `.in_sum2` and the
//! number of calls under its name and `.counts`; or as a flat stream of records, each with a name,
//! the number of calls and the sums. Sums are held by their single-precision bits.
use vstd::prelude::*;
use vstd::utf8::*;
use crate::bytes;
use crate::bytes::le_at;
use crate::floats;
use crate::floats::{is_not_finite, is_not_positive, to_whole};
use crate::gguf::geometry;
use crate::gguf::reader;
use crate::gguf::reader::{FileModel, GgufReader, TensorInfo};
use crate::gguf::value::GgufError;
use crate::names::NameMap;
use crate::text;
use crate::text::text_of_utf8;
use crate::words;
use crate::words::read_words;

pub mod laws;
pub mod promises;

verus! {

/// The sums of one tensor, and how many calls they were accumulated over.
#[derive(Debug)]
pub struct ImatrixEntry {
    pub values: Vec<u32>,
    pub ncall: u32,
}

/// What an [`ImatrixEntry`] stands for.
pub struct EntryModel {
    pub values: Seq<u32>,
    pub ncall: u32,
}

impl View for ImatrixEntry {
    type V = EntryModel;

    open spec fn view(&self) -> EntryModel {
        EntryModel { values: self.values@, ncall: self.ncall }
    }
}

/// An importance matrix: the entries by the names of the tensors.
#[derive(Debug)]
pub struct Imatrix {
    pub entries: NameMap<ImatrixEntry>,
}

/// What entries stand for.
pub open spec fn entry_models(m: Map<Seq<char>, ImatrixEntry>) -> Map<Seq<char>, EntryModel> {
    m.map_values(|e: ImatrixEntry| e@)
}

impl Imatrix {
    /// The names are in order.
    pub open spec fn wf(&self) -> bool {
        self.entries.wf()
    }

    /// The sums of a tensor.
    pub fn get(&self, tensor_name: &str) -> (r: Option<&[u32]>)
        requires
            self.wf(),
        ensures
            match r {
                Some(v) => self.entries@.dom().contains(tensor_name@) && v@
                    == self.entries@[tensor_name@].values@,
                None => !self.entries@.dom().contains(tensor_name@),
            },
    {
        match self.entries.get(tensor_name) {
            Some(e) => Some(e.values.as_slice()),
            None => None,
        }
    }

    /// How many tensors there are.
    pub fn len(&self) -> (r: usize)
        ensures
            r == self.entries.items@.len(),
    {
        self.entries.len()
    }

    /// Whether there are no tensors.
    pub fn is_empty(&self) -> (r: bool)
        ensures
            r == (self.entries.items@.len() == 0),
    {
        self.entries.len() == 0
    }
}

/// A matrix that cannot be read.
#[derive(Debug)]
pub enum ImatrixError {
    /// The stream ends too early.
    PastEof,
    /// Too many tensors to be believed.
    TooManyTensors,
    /// A name too long to be believed, of this record.
    NameTooLong(usize),
    /// A name that is no text, of this record.
    BadName(usize),
    /// Too many values to be believed, of this tensor.
    TooManyValues(String),
    /// The stream ends among the values of this tensor.
    Truncated(String),
    /// No model file.
    Gguf(GgufError),
    /// The sums under this name cannot be read.
    Decode { tensor: String, kind: GgufError },
    /// A model file without sums.
    NoSums,
}

/// What an [`ImatrixError`] stands for.
pub enum ErrorModel {
    PastEof,
    TooManyTensors,
    NameTooLong(usize),
    BadName(usize),
    TooManyValues(Seq<char>),
    Truncated(Seq<char>),
    Gguf(GgufError),
    Decode { tensor: Seq<char>, kind: GgufError },
    NoSums,
}

impl View for ImatrixError {
    type V = ErrorModel;

    open spec fn view(&self) -> ErrorModel {
        match self {
            ImatrixError::PastEof => ErrorModel::PastEof,
            ImatrixError::TooManyTensors => ErrorModel::TooManyTensors,
            ImatrixError::NameTooLong(i) => ErrorModel::NameTooLong(*i),
            ImatrixError::BadName(i) => ErrorModel::BadName(*i),
            ImatrixError::TooManyValues(s) => ErrorModel::TooManyValues(s@),
            ImatrixError::Truncated(s) => ErrorModel::Truncated(s@),
            ImatrixError::Gguf(e) => ErrorModel::Gguf(*e),
            ImatrixError::Decode { tensor, kind } => ErrorModel::Decode {
                tensor: tensor@,
                kind: *kind,
            },
            ImatrixError::NoSums => ErrorModel::NoSums,
        }
    }
}

/// The 32-bit number that stands in `b` at `pos`.
pub open spec fn word_at(b: Seq<u8>, pos: int) -> nat {
    bytes::le_value(b.subrange(pos, pos + 4))
}

/// The record `i` of a flat stream, which stands in `b` at `pos`, and where the next one stands.
/// Numbers are signed; a negative one is above every limit.
pub open spec fn record_at(b: Seq<u8>, pos: int, i: nat) -> Result<
    (Seq<char>, EntryModel, int),
    ErrorModel,
> {
    if pos + 4 > b.len() {
        Err(ErrorModel::PastEof)
    } else {
        let len = word_at(b, pos);
        let p = pos + 4;
        if len > 4096 {
            Err(ErrorModel::NameTooLong(i as usize))
        } else if p + len > b.len() {
            Err(ErrorModel::PastEof)
        } else if !valid_utf8(b.subrange(p, p + len)) {
            Err(ErrorModel::BadName(i as usize))
        } else {
            let name = decode_utf8(b.subrange(p, p + len));
            let q = p + len;
            if q + 8 > b.len() {
                Err(ErrorModel::PastEof)
            } else {
                let n = word_at(b, q + 4);
                if n > 0x1000_0000 {
                    Err(ErrorModel::TooManyValues(name))
                } else if q + 8 + 4 * n > b.len() {
                    Err(ErrorModel::Truncated(name))
                } else {
                    Ok(
                        (
                            name,
                            EntryModel {
                                values: words::words_at(b, q + 8, n),
                                ncall: word_at(b, q) as u32,
                            },
                            q + 8 + 4 * n,
                        ),
                    )
                }
            }
        }
    }
}

/// The entries of `n` records from `pos` on, the first of which is record `i`, added to `m`. Of two
/// records with one name the later counts.
pub open spec fn records_at(
    b: Seq<u8>,
    pos: int,
    i: nat,
    n: nat,
    m: Map<Seq<char>, EntryModel>,
) -> Result<Map<Seq<char>, EntryModel>, ErrorModel>
    decreases n,
{
    if n == 0 {
        Ok(m)
    } else {
        match record_at(b, pos, i) {
            Err(e) => Err(e),
            Ok((name, entry, next)) => records_at(
                b,
                next,
                i + 1,
                (n - 1) as nat,
                m.insert(name, entry),
            ),
        }
    }
}

/// The matrix in a flat stream.
pub open spec fn read_flat(b: Seq<u8>) -> Result<Map<Seq<char>, EntryModel>, ErrorModel> {
    if b.len() < 4 {
        Err(ErrorModel::PastEof)
    } else {
        let n = word_at(b, 0);
        if n > 1_000_000 {
            Err(ErrorModel::TooManyTensors)
        } else {
            records_at(b, 4, 0, n, Map::empty())
        }
    }
}

/// The record `i` of a flat stream, and where the next one stands.
fn read_record(b: &[u8], pos: usize, i: usize) -> (r: Result<
    (String, ImatrixEntry, usize),
    ImatrixError,
>)
    requires
        pos <= b@.len(),
    ensures
        match record_at(b@, pos as int, i as nat) {
            Ok((name, entry, next)) => r matches Ok((s, e, p)) && s@ == name && e@ == entry && p
                == next && p <= b@.len(),
            Err(x) => r matches Err(e) && e@ == x,
        },
{
    proof {
        bytes::lemma_pow256();
    }
    let total: usize = b.len();
    if total - pos < 4 {
        return Err(ImatrixError::PastEof);
    }
    let len: u64 = le_at(b, pos, 4);
    if len > 4096 {
        return Err(ImatrixError::NameTooLong(i));
    }
    let len: usize = len as usize;
    let p: usize = pos + 4;
    if total - p < len {
        return Err(ImatrixError::PastEof);
    }
    let name = match text_of_utf8(vstd::slice::slice_subrange(b, p, p + len)) {
        Some(s) => s,
        None => return Err(ImatrixError::BadName(i)),
    };
    let q: usize = p + len;
    if total - q < 8 {
        return Err(ImatrixError::PastEof);
    }
    let ncall: u32 = le_at(b, q, 4) as u32;
    let n: u64 = le_at(b, q + 4, 4);
    if n > 0x1000_0000 {
        return Err(ImatrixError::TooManyValues(name));
    }
    let n: usize = n as usize;
    if (total - q - 8) / 4 < n {
        return Err(ImatrixError::Truncated(name));
    }
    let values = read_words(b, q + 8, n);
    Ok((name, ImatrixEntry { values, ncall }, q + 8 + 4 * n))
}

/// Reads a matrix from a flat stream.
pub fn load_imatrix_flat(b: &[u8]) -> (r: Result<Imatrix, ImatrixError>)
    ensures
        outcome(r) == read_flat(b@),
        r matches Ok(im) ==> im.wf(),
{
    proof {
        bytes::lemma_pow256();
    }
    let total: usize = b.len();
    if total < 4 {
        return Err(ImatrixError::PastEof);
    }
    let count: u64 = le_at(b, 0, 4);
    if count > 1_000_000 {
        return Err(ImatrixError::TooManyTensors);
    }
    let n: usize = count as usize;
    let mut entries: NameMap<ImatrixEntry> = NameMap::new();
    let mut pos: usize = 4;
    let mut i: usize = 0;
    assert(entry_models(entries@) =~= Map::empty());
    while i < n
        invariant
            i <= n,
            b@.len() >= 4,
            word_at(b@, 0) == n,
            n <= 1_000_000,
            pos <= b@.len(),
            entries.wf(),
            records_at(b@, pos as int, i as nat, (n - i) as nat, entry_models(entries@))
                == read_flat(b@),
        decreases n - i,
    {
        let ghost had = entries@;
        match read_record(b, pos, i) {
            Ok((name, entry, next)) => {
                let ghost (key, model) = (name@, entry@);
                entries.insert(name, entry);
                assert(entry_models(entries@) =~= entry_models(had).insert(key, model));
                pos = next;
            },
            Err(e) => return Err(e),
        }
        i = i + 1;
    }
    Ok(Imatrix { entries })
}

/// Why the elements of the tensor `i` of the file `data` cannot be read.
pub open spec fn fault_of(data: Seq<u8>, m: FileModel, i: int) -> Option<GgufError> {
    match reader::tensor_data(data, m.data_offset, m.tensors[i]) {
        Err(k) => Some(k),
        Ok(_) => if !geometry::is_float(m.tensors[i].ggml_type) {
            Some(GgufError::NotFloat(m.tensors[i].ggml_type))
        } else {
            None
        },
    }
}

/// `v` are the elements of the tensor `i`.
pub open spec fn elements(data: Seq<u8>, m: FileModel, i: int, v: Seq<u32>) -> bool {
    &&& fault_of(data, m, i) is None
    &&& Some(v.len() as u64) == geometry::elem_count(m.tensors[i].dims)
    &&& forall|j: int|
        0 <= j < v.len() ==> reader::float_elem(
            m.tensors[i].ggml_type,
            reader::tensor_data(data, m.data_offset, m.tensors[i])->Ok_0,
            j,
            #[trigger] v[j],
        )
}

/// The tensor `i` is the first with this name.
pub open spec fn first_named(m: FileModel, name: Seq<char>, i: int) -> bool {
    &&& 0 <= i < m.tensors.len()
    &&& m.tensors[i].name == name
    &&& forall|j: int| 0 <= j < i ==> (#[trigger] m.tensors[j]).name != name
}

/// `ncall` is the number of calls of a tensor: the whole part of the first element under its name
/// and `.counts`, zero where none can be read.
pub open spec fn calls_of(data: Seq<u8>, m: FileModel, weight: Seq<char>, ncall: u32) -> bool {
    let name = weight + ".counts"@;
    ||| ncall == 0 && forall|j: int|
        0 <= j < m.tensors.len() ==> (#[trigger] m.tensors[j]).name != name
    ||| exists|i: int| #[trigger] first_named(m, name, i) && first_element(data, m, i, ncall)
}

/// `n` is the whole part of the first element of the tensor `i`, zero where it cannot be read.
pub open spec fn first_element(data: Seq<u8>, m: FileModel, i: int, n: u32) -> bool {
    if fault_of(data, m, i) is Some {
        n == 0
    } else {
        exists|v: Seq<u32>| #[trigger]
            elements(data, m, i, v) && n == if v.len() == 0 {
                0
            } else {
                floats::whole_part(v[0])
            }
    }
}

/// The tensor whose sums stand under this name.
pub open spec fn weight_of(name: Seq<char>) -> Option<Seq<char>> {
    text::stripped_suffix(name, ".in_sum2"@)
}

/// The last of the first `n` tensors that has the sums of `weight`.
pub open spec fn last_sums(m: FileModel, weight: Seq<char>, n: int) -> Option<int>
    decreases n,
{
    if n <= 0 {
        None
    } else if weight_of(m.tensors[n - 1].name) == Some(weight) {
        Some(n - 1)
    } else {
        last_sums(m, weight, n - 1)
    }
}

/// The entries are those of the first `n` tensors. Of two sums of one tensor the later count.
pub open spec fn sums_read(
    data: Seq<u8>,
    m: FileModel,
    n: int,
    entries: Map<Seq<char>, EntryModel>,
) -> bool {
    &&& forall|w: Seq<char>| #[trigger]
        entries.dom().contains(w) <==> last_sums(m, w, n) is Some
    &&& forall|w: Seq<char>|
        #![trigger entries[w]]
        entries.dom().contains(w) ==> elements(
            data,
            m,
            last_sums(m, w, n)->0,
            entries[w].values,
        ) && calls_of(data, m, w, entries[w].ncall)
}

/// The tensor `i` has sums.
pub open spec fn has_sums(m: FileModel, i: int) -> bool {
    0 <= i < m.tensors.len() && weight_of(m.tensors[i].name) is Some
}

/// The tensor `i` has sums that cannot be read.
pub open spec fn bad_sums(data: Seq<u8>, m: FileModel, i: int) -> bool {
    has_sums(m, i) && fault_of(data, m, i) is Some
}

/// `r` is what the sums in a model file give.
pub open spec fn is_matrix(
    data: Seq<u8>,
    m: FileModel,
    r: Result<Map<Seq<char>, EntryModel>, ErrorModel>,
) -> bool {
    match r {
        Ok(entries) => {
            &&& sums_read(data, m, m.tensors.len() as int, entries)
            &&& forall|i: int| !#[trigger] bad_sums(data, m, i)
            &&& exists|i: int| has_sums(m, i)
        },
        Err(ErrorModel::Decode { tensor, kind }) => exists|i: int|
            {
                &&& #[trigger] bad_sums(data, m, i)
                &&& tensor == m.tensors[i].name
                &&& fault_of(data, m, i) == Some(kind)
                &&& forall|j: int| j < i ==> !#[trigger] bad_sums(data, m, j)
            },
        Err(e) => e == ErrorModel::NoSums && forall|i: int| !#[trigger] has_sums(m, i),
    }
}

/// What a result stands for.
pub open spec fn outcome(r: Result<Imatrix, ImatrixError>) -> Result<
    Map<Seq<char>, EntryModel>,
    ErrorModel,
> {
    match r {
        Ok(im) => Ok(entry_models(im.entries@)),
        Err(e) => Err(e@),
    }
}

/// The number of calls of a tensor.
fn count_calls(file: &GgufReader<'_>, weight: &str) -> (r: u32)
    ensures
        calls_of(file.data@, file@, weight@, r),
{
    let mut name: String = weight.to_owned();
    name.append(".counts");
    let ghost m = file@;
    match file.find_tensor(name.as_str()) {
        None => {
            proof {
                assert forall|j: int| 0 <= j < m.tensors.len() implies (
                #[trigger] m.tensors[j]).name != name@ by {
                    assert(file.tensors@[j].name@ != name@);
                }
            }
            0
        },
        Some(i) => {
            proof {
                assert forall|j: int| 0 <= j < i implies (#[trigger] m.tensors[j]).name != name@ by {
                    assert(file.tensors@[j].name@ != name@);
                }
                assert(first_named(m, name@, i as int));
            }
            match file.tensor_to_f32(i) {
                Err(_) => 0,
                Ok(v) => {
                    assert(elements(file.data@, m, i as int, v@));
                    if v.len() == 0 {
                        0
                    } else {
                        to_whole(v[0])
                    }
                },
            }
        },
    }
}

/// Reads a matrix from a model file.
pub fn load_imatrix_gguf(file: &GgufReader<'_>) -> (r: Result<Imatrix, ImatrixError>)
    ensures
        is_matrix(file.data@, file@, outcome(r)),
        r matches Ok(im) ==> im.wf(),
{
    let ghost m = file@;
    let ghost data = file.data@;
    let n: usize = file.tensors.len();
    let mut entries: NameMap<ImatrixEntry> = NameMap::new();
    let mut found: bool = false;
    let mut i: usize = 0;
    while i < n
        invariant
            i <= n == file.tensors@.len(),
            m == file@,
            data == file.data@,
            entries.wf(),
            sums_read(data, m, i as int, entry_models(entries@)),
            forall|j: int| j < i ==> !#[trigger] bad_sums(data, m, j),
            found ==> exists|j: int| has_sums(m, j),
            !found ==> forall|j: int| j < i ==> !#[trigger] has_sums(m, j),
        decreases n - i,
    {
        let ghost had = entry_models(entries@);
        let name = file.tensors[i].name.as_str();
        match text::strip_suffix(name, ".in_sum2") {
            None => {
                assert(!has_sums(m, i as int));
            },
            Some(weight) => {
                assert(weight_of(m.tensors[i as int].name) == Some(weight@));
                assert(has_sums(m, i as int));
                found = true;
                let values = match file.tensor_to_f32(i) {
                    Ok(v) => v,
                    Err(e) => {
                        assert(bad_sums(data, m, i as int));
                        return Err(
                            ImatrixError::Decode {
                                tensor: file.tensors[i].name.clone(),
                                kind: e.kind,
                            },
                        );
                    },
                };
                assert(elements(data, m, i as int, values@));
                let ncall: u32 = count_calls(file, weight);
                let ghost model = EntryModel { values: values@, ncall };
                entries.insert(weight.to_owned(), ImatrixEntry { values, ncall });
                assert(entry_models(entries@) =~= had.insert(weight@, model));
            },
        }
        proof {
            let now = entry_models(entries@);
            assert forall|w: Seq<char>| #[trigger] now.dom().contains(w) <==> last_sums(
                m,
                w,
                i + 1,
            ) is Some by {
                assert(had.dom().contains(w) <==> last_sums(m, w, i as int) is Some);
            }
            assert forall|w: Seq<char>|
                #![trigger now[w]]
                now.dom().contains(w) implies elements(
                data,
                m,
                last_sums(m, w, i + 1)->0,
                now[w].values,
            ) && calls_of(data, m, w, now[w].ncall) by {
                if weight_of(m.tensors[i as int].name) != Some(w) {
                    assert(had.dom().contains(w));
                    assert(had[w] == now[w]);
                }
            }
        }
        i = i + 1;
    }
    if !found {
        return Err(ImatrixError::NoSums);
    }
    Ok(Imatrix { entries })
}

/// The data begin with the magic of a model file.
pub open spec fn is_model_file(b: Seq<u8>) -> bool {
    b.len() >= 4 && b.subrange(0, 4) == reader::magic()
}

/// Reads a matrix: a model file where the data begin with its magic, else a flat stream.
pub fn load_imatrix(b: &[u8]) -> (r: Result<Imatrix, ImatrixError>)
    requires
        b@.len() <= isize::MAX,
    ensures
        !is_model_file(b@) ==> outcome(r) == read_flat(b@),
        is_model_file(b@) ==> match reader::read_file(b@) {
            Err(x) => outcome(r) == Err::<Map<Seq<char>, EntryModel>, _>(ErrorModel::Gguf(x)),
            Ok(m) => is_matrix(b@, m, outcome(r)),
        },
        r matches Ok(im) ==> im.wf(),
{
    let n: usize = b.len();
    let model: bool = n >= 4 && b[0] == 0x47 && b[1] == 0x47 && b[2] == 0x55 && b[3] == 0x46;
    proof {
        if n >= 4 {
            let head = b@.subrange(0, 4);
            assert(head[0] == b@[0] && head[1] == b@[1] && head[2] == b@[2] && head[3] == b@[3]);
            if model {
                assert(head =~= reader::magic());
            }
        }
    }
    if !model {
        return load_imatrix_flat(b);
    }
    match GgufReader::from_bytes(b) {
        Err(e) => Err(ImatrixError::Gguf(e)),
        Ok(file) => load_imatrix_gguf(&file),
    }
}

/// A value that counts as bad: no number or an infinite one, and with `positive` also a number that
/// is not positive.
pub open spec fn is_bad(bits: u32, positive: bool) -> bool {
    if positive {
        floats::not_positive(bits)
    } else {
        floats::not_finite(bits)
    }
}

/// How many of the values are bad.
pub open spec fn bad_values(v: Seq<u32>, positive: bool) -> nat
    decreases v.len(),
{
    if v.len() == 0 {
        0
    } else {
        bad_values(v.drop_last(), positive) + if is_bad(v.last(), positive) {
            1nat
        } else {
            0
        }
    }
}

/// How many values of these entries are bad.
pub open spec fn bad_in(items: Seq<(String, ImatrixEntry)>, positive: bool) -> nat
    decreases items.len(),
{
    if items.len() == 0 {
        0
    } else {
        bad_in(items.drop_last(), positive) + bad_values(items.last().1.values@, positive)
    }
}

/// How many values are bad.
fn count_bad_values(v: &[u32], positive: bool) -> (r: usize)
    ensures
        r == bad_values(v@, positive),
        r <= v@.len(),
{
    let n: usize = v.len();
    let mut c: usize = 0;
    let mut i: usize = 0;
    while i < n
        invariant
            i <= n == v@.len(),
            c == bad_values(v@.subrange(0, i as int), positive),
            c <= i,
        decreases n - i,
    {
        let ghost longer = v@.subrange(0, i + 1);
        assert(longer.drop_last() =~= v@.subrange(0, i as int));
        let bad = if positive {
            is_not_positive(v[i])
        } else {
            is_not_finite(v[i])
        };
        if bad {
            c = c + 1;
        }
        i = i + 1;
    }
    assert(v@.subrange(0, n as int) =~= v@);
    c
}

/// How many values of a matrix are bad.
fn count_bad(im: &Imatrix, positive: bool) -> (r: u128)
    ensures
        r == bad_in(im.entries.items@, positive),
{
    let items = &im.entries.items;
    let n: usize = items.len();
    let mut c: u128 = 0;
    let mut i: usize = 0;
    while i < n
        invariant
            i <= n == items@.len(),
            c == bad_in(items@.subrange(0, i as int), positive),
            c <= i * usize::MAX,
        decreases n - i,
    {
        let ghost longer = items@.subrange(0, i + 1);
        proof {
            assert(longer.drop_last() =~= items@.subrange(0, i as int));
            assert(i * usize::MAX + usize::MAX <= u128::MAX) by (nonlinear_arith)
                requires
                    i <= u64::MAX,
                    usize::MAX <= u64::MAX,
            ;
            assert((i + 1) * usize::MAX == i * usize::MAX + usize::MAX) by (nonlinear_arith);
        }
        c = c + count_bad_values(items[i].1.values.as_slice(), positive) as u128;
        i = i + 1;
    }
    assert(items@.subrange(0, n as int) =~= items@);
    c
}

/// How many values of a matrix are no numbers or infinite.
pub fn count_nonfinite(im: &Imatrix) -> (r: u128)
    ensures
        r == bad_in(im.entries.items@, false),
{
    count_bad(im, false)
}

/// How many values of a matrix are no positive finite numbers: those that are no use as weights.
pub fn count_nonpositive(im: &Imatrix) -> (r: u128)
    ensures
        r == bad_in(im.entries.items@, true),
{
    count_bad(im, true)
}

/// How many of the tensors have an entry.
pub open spec fn matched_count(tensors: Seq<TensorInfo>, m: Map<Seq<char>, ImatrixEntry>) -> nat
    decreases tensors.len(),
{
    if tensors.len() == 0 {
        0
    } else {
        matched_count(tensors.drop_last(), m) + if m.dom().contains(tensors.last().name@) {
            1nat
        } else {
            0
        }
    }
}

/// How many tensors of a model have an entry, and how many have none.
pub fn cross_check(im: &Imatrix, tensors: &[TensorInfo]) -> (r: (usize, usize))
    requires
        im.wf(),
    ensures
        r.0 == matched_count(tensors@, im.entries@),
        r.0 + r.1 == tensors@.len(),
{
    let n: usize = tensors.len();
    let mut matched: usize = 0;
    let mut i: usize = 0;
    while i < n
        invariant
            im.wf(),
            i <= n == tensors@.len(),
            matched == matched_count(tensors@.subrange(0, i as int), im.entries@),
            matched <= i,
        decreases n - i,
    {
        let ghost longer = tensors@.subrange(0, i + 1);
        assert(longer.drop_last() =~= tensors@.subrange(0, i as int));
        if im.get(tensors[i].name.as_str()).is_some() {
            matched = matched + 1;
        }
        i = i + 1;
    }
    assert(tensors@.subrange(0, n as int) =~= tensors@);
    (matched, n - matched)
}

} // verus!
