//! Reading a container.
use vstd::prelude::*;
use crate::bytes;
use crate::bytes::le_at;
use crate::minifloat;
use crate::gguf::geometry;
use crate::gguf::geometry::{align_up, count_elems, packed_nbytes, TensorError};
use crate::gguf::value;
use crate::gguf::value::{read_number, read_string, read_value, GgufError, GgufType, GgufValue, ValueModel};
use crate::text;

verus! {

/// The alignment of a file that states none.
pub const DEFAULT_ALIGNMENT: u64 = 32;

/// The version that is written.
pub const GGUF_VERSION: u32 = 3;

/// The first four bytes of every file.
pub open spec fn magic() -> Seq<u8> {
    seq![0x47u8, 0x47u8, 0x55u8, 0x46u8]
}

/// A tensor's header. `dims` has the outermost dimension first; `offset` counts from the start of
/// the data section.
#[derive(Debug)]
pub struct TensorInfo {
    pub name: String,
    pub dims: Vec<u64>,
    pub ggml_type: u32,
    pub offset: u64,
}

/// What a [`TensorInfo`] stands for.
pub struct TensorModel {
    pub name: Seq<char>,
    pub dims: Seq<u64>,
    pub ggml_type: u32,
    pub offset: u64,
}

impl View for TensorInfo {
    type V = TensorModel;

    open spec fn view(&self) -> TensorModel {
        TensorModel {
            name: self.name@,
            dims: self.dims@,
            ggml_type: self.ggml_type,
            offset: self.offset,
        }
    }
}

/// What a file says before its data.
pub struct FileModel {
    pub version: u32,
    pub alignment: u64,
    pub data_offset: u64,
    pub kv: Seq<(Seq<char>, ValueModel)>,
    pub tensors: Seq<TensorModel>,
}

/// What a list of key/value pairs stands for.
pub open spec fn kv_model(kv: Seq<(String, GgufValue)>) -> Seq<(Seq<char>, ValueModel)> {
    Seq::new(kv.len(), |i: int| (kv[i].0@, kv[i].1@))
}

/// What a list of tensor headers stands for.
pub open spec fn infos_model(infos: Seq<TensorInfo>) -> Seq<TensorModel> {
    Seq::new(infos.len(), |i: int| infos[i]@)
}

/// `n` items that `read` takes from the data one behind the other, the first at `pos`.
pub open spec fn read_list<T>(
    read: spec_fn(int) -> Result<(T, int), GgufError>,
    pos: int,
    n: nat,
) -> Result<(Seq<T>, int), GgufError>
    decreases n,
{
    if n == 0 {
        Ok((Seq::empty(), pos))
    } else {
        match read(pos) {
            Err(e) => Err(e),
            Ok((v, p)) => put_before(seq![v], read_list(read, p, (n - 1) as nat)),
        }
    }
}

/// `items` put before what was read.
pub open spec fn put_before<T>(items: Seq<T>, r: Result<(Seq<T>, int), GgufError>) -> Result<
    (Seq<T>, int),
    GgufError,
> {
    match r {
        Err(e) => Err(e),
        Ok((s, p)) => Ok((items + s, p)),
    }
}

/// Items put before items.
proof fn lemma_put_before<T>(a: Seq<T>, v: T, r: Result<(Seq<T>, int), GgufError>)
    ensures
        put_before(a, put_before(seq![v], r)) == put_before(a.push(v), r),
        put_before(Seq::<T>::empty(), r) == r,
{
    if r is Ok {
        let (s, p) = r->Ok_0;
        assert(a + (seq![v] + s) =~= a.push(v) + s);
        assert(Seq::<T>::empty() + s =~= s);
    }
}

/// The key/value pair at `pos`: key, type, value.
pub open spec fn read_kv(b: Seq<u8>, pos: int) -> Result<((Seq<char>, ValueModel), int), GgufError> {
    match value::read_str(b, pos) {
        Err(e) => Err(e),
        Ok((key, p)) => match value::read_num(b, p, 4) {
            Err(e) => Err(e),
            Ok((c, q)) => match value::type_of_code(c as u32) {
                Err(e) => Err(e),
                Ok(t) => match value::read_val(b, q, t) {
                    Err(e) => Err(e),
                    Ok((v, r)) => Ok(((key, v), r)),
                },
            },
        },
    }
}

/// [`read_kv`] on fixed data.
pub open spec fn kv_reader(b: Seq<u8>) -> spec_fn(int) -> Result<
    ((Seq<char>, ValueModel), int),
    GgufError,
> {
    |pos: int| read_kv(b, pos)
}

/// The dimension at `pos`.
pub open spec fn read_dim(b: Seq<u8>, pos: int) -> Result<(u64, int), GgufError> {
    match value::read_num(b, pos, 8) {
        Err(e) => Err(e),
        Ok((d, p)) => Ok((d as u64, p)),
    }
}

/// [`read_dim`] on fixed data.
pub open spec fn dim_reader(b: Seq<u8>) -> spec_fn(int) -> Result<(u64, int), GgufError> {
    |pos: int| read_dim(b, pos)
}

/// The tensor header at `pos`: name, number of dimensions, dimensions from the innermost out,
/// type, offset.
pub open spec fn read_info(b: Seq<u8>, pos: int) -> Result<(TensorModel, int), GgufError> {
    match value::read_str(b, pos) {
        Err(e) => Err(e),
        Ok((name, p)) => match value::read_num(b, p, 4) {
            Err(e) => Err(e),
            Ok((n, q)) => match read_list(dim_reader(b), q, n) {
                Err(e) => Err(e),
                Ok((disk, r)) => match value::read_num(b, r, 4) {
                    Err(e) => Err(e),
                    Ok((t, s)) => match value::read_num(b, s, 8) {
                        Err(e) => Err(e),
                        Ok((offset, u)) => Ok(
                            (
                                TensorModel {
                                    name,
                                    dims: disk.reverse(),
                                    ggml_type: t as u32,
                                    offset: offset as u64,
                                },
                                u,
                            ),
                        ),
                    },
                },
            },
        },
    }
}

/// [`read_info`] on fixed data.
pub open spec fn info_reader(b: Seq<u8>) -> spec_fn(int) -> Result<(TensorModel, int), GgufError> {
    |pos: int| read_info(b, pos)
}

/// The value of the first pair with this key.
pub open spec fn first_value(kv: Seq<(Seq<char>, ValueModel)>, key: Seq<char>) -> Option<ValueModel>
    decreases kv.len(),
{
    if kv.len() == 0 {
        None
    } else if kv[0].0 == key {
        Some(kv[0].1)
    } else {
        first_value(kv.drop_first(), key)
    }
}

/// The alignment that the metadata state: `general.alignment` where it is a 32-bit number and not
/// zero, one where it is zero, the default where it is missing or of another type.
pub open spec fn alignment_of(kv: Seq<(Seq<char>, ValueModel)>) -> u64 {
    match first_value(kv, "general.alignment"@) {
        Some(v) => match value::u32_of(v) {
            Some(a) => if a == 0 {
                1
            } else {
                a as u64
            },
            None => DEFAULT_ALIGNMENT,
        },
        None => DEFAULT_ALIGNMENT,
    }
}

/// The number of bytes up to the end of the tensor headers, and what they say.
pub open spec fn read_header(b: Seq<u8>) -> Result<
    (u32, Seq<(Seq<char>, ValueModel)>, Seq<TensorModel>, int),
    GgufError,
> {
    if b.len() < 4 {
        Err(GgufError::PastEof { at: 0, n: 4 })
    } else if b.subrange(0, 4) != magic() {
        Err(GgufError::NotGguf)
    } else {
        match value::read_num(b, 4, 4) {
            Err(e) => Err(e),
            Ok((version, _)) => if version != 2 && version != 3 {
                Err(GgufError::UnsupportedVersion(version as u32))
            } else {
                match value::read_num(b, 8, 8) {
                    Err(e) => Err(e),
                    Ok((n_tensors, _)) => match value::read_num(b, 16, 8) {
                        Err(e) => Err(e),
                        Ok((n_kv, _)) => match read_list(kv_reader(b), 24, n_kv) {
                            Err(e) => Err(e),
                            Ok((kv, p)) => match read_list(info_reader(b), p, n_tensors) {
                                Err(e) => Err(e),
                                Ok((tensors, q)) => Ok((version as u32, kv, tensors, q)),
                            },
                        },
                    },
                }
            },
        }
    }
}

/// What the file `b` says, or why it cannot be read.
pub open spec fn read_file(b: Seq<u8>) -> Result<FileModel, GgufError> {
    match read_header(b) {
        Err(e) => Err(e),
        Ok((version, kv, tensors, end)) => Ok(
            FileModel {
                version,
                alignment: alignment_of(kv),
                data_offset: geometry::aligned(end as nat, alignment_of(kv) as nat) as u64,
                kv,
                tensors,
            },
        ),
    }
}

/// The packed bytes of the tensor `info` in the file `data`.
pub open spec fn tensor_data(data: Seq<u8>, data_offset: u64, info: TensorModel) -> Result<
    Seq<u8>,
    GgufError,
> {
    match geometry::elem_count(info.dims) {
        None => Err(GgufError::SizeOverflow),
        Some(n) => match geometry::packed_size(info.ggml_type, n as nat) {
            Err(e) => Err(e),
            Ok(len) => {
                let start = data_offset + info.offset;
                if start + len > data.len() {
                    Err(GgufError::PastEnd)
                } else {
                    Ok(data.subrange(start, start + len))
                }
            },
        },
    }
}

/// `r` is the single-precision pattern of element `i` of the packed floats `b`.
pub open spec fn float_elem(ggml_type: u32, b: Seq<u8>, i: int, r: u32) -> bool {
    if ggml_type == 0 {
        r == bytes::le_value(b.subrange(4 * i, 4 * i + 4))
    } else if ggml_type == 1 {
        minifloat::half_widens(bytes::le_value(b.subrange(2 * i, 2 * i + 2)) as u16, r)
    } else {
        minifloat::bfloat_widens(bytes::le_value(b.subrange(2 * i, 2 * i + 2)) as u16, r)
    }
}

impl TensorInfo {
    /// The number of elements.
    pub fn n_elems(&self) -> (r: u64)
        requires
            geometry::elem_count(self.dims@) is Some,
        ensures
            geometry::elem_count(self.dims@) == Some(r),
    {
        match count_elems(self.dims.as_slice()) {
            Some(n) => n,
            None => 0,
        }
    }

    /// Rows and columns: both outer dimensions, one row for a vector, nothing for a scalar.
    pub fn rows_cols(&self) -> (r: (usize, usize))
        ensures
            self.dims@.len() == 0 ==> r == (0usize, 0usize),
            self.dims@.len() == 1 ==> r == (1usize, self.dims@[0] as usize),
            self.dims@.len() >= 2 ==> r == (self.dims@[0] as usize, self.dims@[1] as usize),
    {
        let n: usize = self.dims.len();
        if n == 0 {
            (0, 0)
        } else if n == 1 {
            (1, self.dims[0] as usize)
        } else {
            (self.dims[0] as usize, self.dims[1] as usize)
        }
    }
}

/// The packed bytes that a tensor takes.
pub fn tensor_nbytes(info: &TensorInfo) -> (r: Result<u64, TensorError>)
    ensures
        match geometry::elem_count(info.dims@) {
            None => r matches Err(e) && e.kind == GgufError::SizeOverflow && e.tensor@ == info.name@,
            Some(n) => match r {
                Ok(v) => geometry::packed_size(info.ggml_type, n as nat) == Ok::<u64, GgufError>(v),
                Err(e) => geometry::packed_size(info.ggml_type, n as nat) == Err::<u64, GgufError>(
                    e.kind,
                ) && e.tensor@ == info.name@,
            },
        },
{
    match count_elems(info.dims.as_slice()) {
        Some(n) => packed_nbytes(info.ggml_type, n, info.name.as_str()),
        None => Err(TensorError { tensor: info.name.clone(), kind: GgufError::SizeOverflow }),
    }
}

/// A container over the bytes of a file.
#[derive(Debug)]
pub struct GgufReader<'a> {
    pub data: &'a [u8],
    pub version: u32,
    pub alignment: u64,
    pub data_offset: u64,
    pub kv: Vec<(String, GgufValue)>,
    pub tensors: Vec<TensorInfo>,
}

impl<'a> View for GgufReader<'a> {
    type V = FileModel;

    open spec fn view(&self) -> FileModel {
        FileModel {
            version: self.version,
            alignment: self.alignment,
            data_offset: self.data_offset,
            kv: kv_model(self.kv@),
            tensors: infos_model(self.tensors@),
        }
    }
}

/// Reads `n` key/value pairs from `cur` on.
fn read_kvs(b: &[u8], cur: usize, n: u64) -> (r: Result<
    (Vec<(String, GgufValue)>, usize),
    GgufError,
>)
    requires
        cur <= b@.len(),
    ensures
        match r {
            Ok((kv, p)) => read_list(kv_reader(b@), cur as int, n as nat) == Ok::<_, GgufError>(
                (kv_model(kv@), p as int),
            ) && p <= b@.len(),
            Err(e) => read_list(kv_reader(b@), cur as int, n as nat) == Err::<
                (Seq<(Seq<char>, ValueModel)>, int),
                _,
            >(e),
        },
{
    let mut kv: Vec<(String, GgufValue)> = Vec::new();
    let mut at: usize = cur;
    let mut i: u64 = 0;
    let ghost whole = read_list(kv_reader(b@), cur as int, n as nat);
    proof {
        lemma_put_before(kv_model(kv@), arbitrary(), whole);
        assert(kv_model(kv@) =~= Seq::empty());
    }
    while i < n
        invariant
            i <= n,
            at <= b@.len(),
            whole == read_list(kv_reader(b@), cur as int, n as nat),
            whole == put_before(
                kv_model(kv@),
                read_list(kv_reader(b@), at as int, (n - i) as nat),
            ),
        decreases n - i,
    {
        proof {
            bytes::lemma_pow256();
        }
        assert(kv_reader(b@)(at as int) == read_kv(b@, at as int));
        let (key, p): (String, usize) = match read_string(b, at) {
            Ok(x) => x,
            Err(e) => return Err(e),
        };
        let (c, q): (u64, usize) = match read_number(b, p, 4) {
            Ok(x) => x,
            Err(e) => return Err(e),
        };
        let t = match GgufType::from_u32(c as u32) {
            Ok(x) => x,
            Err(e) => return Err(e),
        };
        let (v, next): (GgufValue, usize) = match read_value(b, q, t) {
            Ok(x) => x,
            Err(e) => return Err(e),
        };
        let ghost had = kv_model(kv@);
        let ghost pair = (key@, v@);
        kv.push((key, v));
        proof {
            assert(kv_model(kv@) =~= had.push(pair));
            lemma_put_before(had, pair, read_list(kv_reader(b@), next as int, (n - i - 1) as nat));
        }
        at = next;
        i = i + 1;
    }
    assert(kv_model(kv@) + Seq::empty() =~= kv_model(kv@));
    Ok((kv, at))
}

/// Reads `n` dimensions from `cur` on, in file order.
fn read_dims(b: &[u8], cur: usize, n: u64) -> (r: Result<(Vec<u64>, usize), GgufError>)
    requires
        cur <= b@.len(),
    ensures
        match r {
            Ok((dims, p)) => read_list(dim_reader(b@), cur as int, n as nat) == Ok::<_, GgufError>(
                (dims@, p as int),
            ) && p <= b@.len(),
            Err(e) => read_list(dim_reader(b@), cur as int, n as nat) == Err::<(Seq<u64>, int), _>(
                e,
            ),
        },
{
    let mut dims: Vec<u64> = Vec::new();
    let mut at: usize = cur;
    let mut i: u64 = 0;
    let ghost whole = read_list(dim_reader(b@), cur as int, n as nat);
    proof {
        lemma_put_before(dims@, arbitrary(), whole);
        assert(dims@ =~= Seq::empty());
    }
    while i < n
        invariant
            i <= n,
            at <= b@.len(),
            whole == read_list(dim_reader(b@), cur as int, n as nat),
            whole == put_before(dims@, read_list(dim_reader(b@), at as int, (n - i) as nat)),
        decreases n - i,
    {
        assert(dim_reader(b@)(at as int) == read_dim(b@, at as int));
        let (d, next): (u64, usize) = match read_number(b, at, 8) {
            Ok(x) => x,
            Err(e) => return Err(e),
        };
        proof {
            lemma_put_before(dims@, d, read_list(dim_reader(b@), next as int, (n - i - 1) as nat));
        }
        dims.push(d);
        at = next;
        i = i + 1;
    }
    assert(dims@ + Seq::empty() =~= dims@);
    Ok((dims, at))
}

/// `v` from its last item to its first.
fn reversed(v: &[u64]) -> (r: Vec<u64>)
    ensures
        r@ == v@.reverse(),
{
    let mut out: Vec<u64> = Vec::new();
    let n: usize = v.len();
    let mut i: usize = n;
    while i > 0
        invariant
            i <= n == v@.len(),
            out@.len() == n - i,
            forall|j: int| 0 <= j < out@.len() ==> out@[j] == v@[n - 1 - j],
        decreases i,
    {
        i = i - 1;
        out.push(v[i]);
    }
    assert(out@ =~= v@.reverse());
    out
}

/// Reads the tensor header at `cur`.
fn read_tensor_info(b: &[u8], cur: usize) -> (r: Result<(TensorInfo, usize), GgufError>)
    requires
        cur <= b@.len(),
    ensures
        match r {
            Ok((info, p)) => read_info(b@, cur as int) == Ok::<_, GgufError>((info@, p as int)) && p
                <= b@.len(),
            Err(e) => read_info(b@, cur as int) == Err::<(TensorModel, int), _>(e),
        },
{
    proof {
        bytes::lemma_pow256();
    }
    let (name, p): (String, usize) = match read_string(b, cur) {
        Ok(x) => x,
        Err(e) => return Err(e),
    };
    let (n, q): (u64, usize) = match read_number(b, p, 4) {
        Ok(x) => x,
        Err(e) => return Err(e),
    };
    let (disk, r): (Vec<u64>, usize) = match read_dims(b, q, n) {
        Ok(x) => x,
        Err(e) => return Err(e),
    };
    let (t, s): (u64, usize) = match read_number(b, r, 4) {
        Ok(x) => x,
        Err(e) => return Err(e),
    };
    let (offset, end): (u64, usize) = match read_number(b, s, 8) {
        Ok(x) => x,
        Err(e) => return Err(e),
    };
    let dims = reversed(disk.as_slice());
    Ok((TensorInfo { name, dims, ggml_type: t as u32, offset }, end))
}

/// Reads `n` tensor headers from `cur` on.
fn read_infos(b: &[u8], cur: usize, n: u64) -> (r: Result<(Vec<TensorInfo>, usize), GgufError>)
    requires
        cur <= b@.len(),
    ensures
        match r {
            Ok((infos, p)) => read_list(info_reader(b@), cur as int, n as nat) == Ok::<
                _,
                GgufError,
            >((infos_model(infos@), p as int)) && p <= b@.len(),
            Err(e) => read_list(info_reader(b@), cur as int, n as nat) == Err::<
                (Seq<TensorModel>, int),
                _,
            >(e),
        },
{
    let mut infos: Vec<TensorInfo> = Vec::new();
    let mut at: usize = cur;
    let mut i: u64 = 0;
    let ghost whole = read_list(info_reader(b@), cur as int, n as nat);
    proof {
        lemma_put_before(infos_model(infos@), arbitrary(), whole);
        assert(infos_model(infos@) =~= Seq::empty());
    }
    while i < n
        invariant
            i <= n,
            at <= b@.len(),
            whole == read_list(info_reader(b@), cur as int, n as nat),
            whole == put_before(
                infos_model(infos@),
                read_list(info_reader(b@), at as int, (n - i) as nat),
            ),
        decreases n - i,
    {
        assert(info_reader(b@)(at as int) == read_info(b@, at as int));
        let (info, next): (TensorInfo, usize) = match read_tensor_info(b, at) {
            Ok(x) => x,
            Err(e) => return Err(e),
        };
        let ghost had = infos_model(infos@);
        let ghost one = info@;
        infos.push(info);
        proof {
            assert(infos_model(infos@) =~= had.push(one));
            lemma_put_before(
                had,
                one,
                read_list(info_reader(b@), next as int, (n - i - 1) as nat),
            );
        }
        at = next;
        i = i + 1;
    }
    assert(infos_model(infos@) + Seq::empty() =~= infos_model(infos@));
    Ok((infos, at))
}

/// The first value with this key in a list of pairs.
pub fn find_value<'b>(kv: &'b [(String, GgufValue)], key: &str) -> (r: Option<&'b GgufValue>)
    ensures
        match r {
            Some(v) => first_value(kv_model(kv@), key@) == Some(v@),
            None => first_value(kv_model(kv@), key@) is None,
        },
{
    let n: usize = kv.len();
    let mut i: usize = 0;
    let ghost model = kv_model(kv@);
    assert(model.subrange(0, n as int) =~= model);
    while i < n
        invariant
            i <= n == kv@.len(),
            model == kv_model(kv@),
            first_value(model, key@) == first_value(model.subrange(i as int, n as int), key@),
        decreases n - i,
    {
        let ghost tail = model.subrange(i as int, n as int);
        assert(tail[0] == (kv@[i as int].0@, kv@[i as int].1@));
        assert(tail.drop_first() =~= model.subrange(i + 1, n as int));
        if text::same(kv[i].0.as_str(), key) {
            return Some(&kv[i].1);
        }
        i = i + 1;
    }
    None
}

/// None of the first `n` tensors has this name.
pub open spec fn none_named(tensors: Seq<TensorInfo>, name: Seq<char>, n: int) -> bool {
    forall|j: int| 0 <= j < n ==> (#[trigger] tensors[j]).name@ != name
}

impl<'a> GgufReader<'a> {
    /// Reads the metadata and the tensor headers of the file `data`.
    pub fn from_bytes(data: &'a [u8]) -> (r: Result<GgufReader<'a>, GgufError>)
        requires
            data@.len() <= isize::MAX,
        ensures
            match r {
                Ok(g) => read_file(data@) == Ok::<FileModel, GgufError>(g@) && g.data@ == data@,
                Err(e) => read_file(data@) == Err::<FileModel, GgufError>(e),
            },
    {
        proof {
            bytes::lemma_pow256();
        }
        let len: usize = data.len();
        if len < 4 {
            return Err(GgufError::PastEof { at: 0, n: 4 });
        }
        if !(data[0] == 0x47 && data[1] == 0x47 && data[2] == 0x55 && data[3] == 0x46) {
            proof {
                if data@.subrange(0, 4) == magic() {
                    assert(data@[0] == data@.subrange(0, 4)[0]);
                    assert(data@[1] == data@.subrange(0, 4)[1]);
                    assert(data@[2] == data@.subrange(0, 4)[2]);
                    assert(data@[3] == data@.subrange(0, 4)[3]);
                }
            }
            return Err(GgufError::NotGguf);
        }
        assert(data@.subrange(0, 4) =~= magic());
        let (version, p): (u64, usize) = match read_number(data, 4, 4) {
            Ok(x) => x,
            Err(e) => return Err(e),
        };
        if version != 2 && version != 3 {
            return Err(GgufError::UnsupportedVersion(version as u32));
        }
        let (n_tensors, q): (u64, usize) = match read_number(data, p, 8) {
            Ok(x) => x,
            Err(e) => return Err(e),
        };
        let (n_kv, r): (u64, usize) = match read_number(data, q, 8) {
            Ok(x) => x,
            Err(e) => return Err(e),
        };
        let (kv, s): (Vec<(String, GgufValue)>, usize) = match read_kvs(data, r, n_kv) {
            Ok(x) => x,
            Err(e) => return Err(e),
        };
        let (tensors, end): (Vec<TensorInfo>, usize) = match read_infos(data, s, n_tensors) {
            Ok(x) => x,
            Err(e) => return Err(e),
        };
        let alignment: u64 = match find_value(kv.as_slice(), "general.alignment") {
            Some(v) => match v.as_u32() {
                Some(a) => if a == 0 {
                    1
                } else {
                    a as u64
                },
                None => DEFAULT_ALIGNMENT,
            },
            None => DEFAULT_ALIGNMENT,
        };
        proof {
            geometry::lemma_aligned(end as nat, alignment as nat);
        }
        let data_offset: u64 = align_up(end as u64, alignment);
        Ok(GgufReader { data, version: version as u32, alignment, data_offset, kv, tensors })
    }

    /// The packed bytes of a tensor.
    pub fn tensor_bytes(&self, idx: usize) -> (r: Result<&'a [u8], TensorError>)
        ensures
            idx >= self.tensors@.len() ==> (r matches Err(e) && e.kind == GgufError::NoSuchTensor(
                idx,
            )),
            idx < self.tensors@.len() ==> match r {
                Ok(s) => tensor_data(self.data@, self.data_offset, self.tensors@[idx as int]@)
                    == Ok::<Seq<u8>, GgufError>(s@),
                Err(e) => tensor_data(self.data@, self.data_offset, self.tensors@[idx as int]@)
                    == Err::<Seq<u8>, GgufError>(e.kind) && e.tensor@
                    == self.tensors@[idx as int].name@,
            },
    {
        if idx >= self.tensors.len() {
            return Err(
                TensorError { tensor: String::new(), kind: GgufError::NoSuchTensor(idx) },
            );
        }
        let info = &self.tensors[idx];
        let len: u64 = match tensor_nbytes(info) {
            Ok(n) => n,
            Err(e) => return Err(e),
        };
        let total: usize = self.data.len();
        let end: u128 = self.data_offset as u128 + info.offset as u128 + len as u128;
        if end > total as u128 {
            return Err(TensorError { tensor: info.name.clone(), kind: GgufError::PastEnd });
        }
        let start: usize = (self.data_offset + info.offset) as usize;
        Ok(vstd::slice::slice_subrange(self.data, start, start + len as usize))
    }

    /// The elements of a tensor of plain floats, as single-precision bits.
    pub fn tensor_to_f32(&self, idx: usize) -> (r: Result<Vec<u32>, TensorError>)
        requires
            idx < self.tensors@.len(),
        ensures
            ({
                let info = self.tensors@[idx as int]@;
                match tensor_data(self.data@, self.data_offset, info) {
                    Err(k) => r matches Err(e) && e.kind == k && e.tensor@ == info.name,
                    Ok(b) => if !geometry::is_float(info.ggml_type) {
                        r matches Err(e) && e.kind == GgufError::NotFloat(info.ggml_type)
                            && e.tensor@ == info.name
                    } else {
                        r matches Ok(v) && Some(v@.len() as u64) == geometry::elem_count(info.dims)
                            && forall|i: int|
                            0 <= i < v@.len() ==> float_elem(info.ggml_type, b, i, #[trigger] v@[i])
                    },
                }
            }),
    {
        let b = match self.tensor_bytes(idx) {
            Ok(x) => x,
            Err(e) => return Err(e),
        };
        let info = &self.tensors[idx];
        let t: u32 = info.ggml_type;
        if !geometry::is_float_type(t) {
            return Err(TensorError { tensor: info.name.clone(), kind: GgufError::NotFloat(t) });
        }
        let width: usize = if t == 0 {
            4
        } else {
            2
        };
        let total: usize = b.len();
        let n: usize = total / width;
        proof {
            bytes::lemma_pow256();
        }
        let mut out: Vec<u32> = Vec::new();
        let mut i: usize = 0;
        while i < n
            invariant
                i <= n,
                total == b@.len(),
                t == 0 ==> n * 4 <= total,
                t != 0 ==> n * 2 <= total,
                t == 0 || t == 1 || t == 30,
                bytes::pow256(2) == 0x1_0000,
                bytes::pow256(4) == 0x1_0000_0000,
                out@.len() == i,
                forall|k: int| 0 <= k < i ==> float_elem(t, b@, k, #[trigger] out@[k]),
            decreases n - i,
        {
            if t == 0 {
                out.push(le_at(b, i * 4, 4) as u32);
            } else {
                let h: u16 = le_at(b, i * 2, 2) as u16;
                if t == 1 {
                    out.push(minifloat::widen_half(h));
                } else {
                    out.push(minifloat::widen_bfloat(h));
                }
            }
            i = i + 1;
        }
        Ok(out)
    }

    /// The index of the first tensor with this name.
    pub fn find_tensor(&self, name: &str) -> (r: Option<usize>)
        ensures
            match r {
                Some(i) => i < self.tensors@.len() && self.tensors@[i as int].name@ == name@
                    && none_named(self.tensors@, name@, i as int),
                None => none_named(self.tensors@, name@, self.tensors@.len() as int),
            },
    {
        let n: usize = self.tensors.len();
        let mut i: usize = 0;
        while i < n
            invariant
                i <= n == self.tensors@.len(),
                forall|j: int| 0 <= j < i ==> (#[trigger] self.tensors@[j]).name@ != name@,
            decreases n - i,
        {
            if text::same(self.tensors[i].name.as_str(), name) {
                return Some(i);
            }
            i = i + 1;
        }
        None
    }

    /// The first metadata value with this key.
    pub fn get(&self, key: &str) -> (r: Option<&GgufValue>)
        ensures
            match r {
                Some(v) => first_value(self@.kv, key@) == Some(v@),
                None => first_value(self@.kv, key@) is None,
            },
    {
        find_value(self.kv.as_slice(), key)
    }
}

} // verus!
