//! Linear weights whose elements and scales are separate tensors.
use vstd::prelude::*;
use crate::blockfloat::dequant;
use crate::blockfloat::dequant::{dequant_fp8, dequant_nvfp4, BlockFloatError, Factors, Fp8Scale};
use crate::blockfloat::{F32_ONE, RQ_TYPE_FP8_E4M3, RQ_TYPE_FP8_E5M2, RQ_TYPE_NVFP4};
use crate::gguf::geometry;
use crate::gguf::geometry::count_elems;
use crate::safetensors;
use crate::safetensors::sharded;
use crate::safetensors::sharded::ShardedSafeTensors;
use crate::safetensors::{EntryModel, SafeTensors, StDtype, StEntry, StError, StErrorKind};

verus! {

/// A file or several files taken as one.
pub trait TensorSource {
    /// The source can be asked.
    spec fn ready(&self) -> bool;

    /// The entry of a tensor.
    spec fn entry_at(&self, name: Seq<char>) -> Option<EntryModel>;

    /// The bytes of a tensor that has an entry.
    spec fn bytes_at(&self, name: Seq<char>) -> Seq<u8>;

    fn st_entry(&self, name: &str) -> (r: Option<&StEntry>)
        requires
            self.ready(),
        ensures
            match r {
                Some(e) => self.entry_at(name@) == Some(e@),
                None => self.entry_at(name@) is None,
            },
    ;

    fn st_bytes(&self, name: &str) -> (r: Result<&[u8], StError>)
        requires
            self.ready(),
        ensures
            match r {
                Ok(b) => self.entry_at(name@) is Some && b@ == self.bytes_at(name@),
                Err(e) => self.entry_at(name@) is None && e.tensor@ == name@ && e.kind
                    == StErrorKind::NoSuchTensor,
            },
    ;

    fn st_f32(&self, name: &str) -> (r: Result<Vec<u32>, StError>)
        requires
            self.ready(),
        ensures
            match self.entry_at(name@) {
                None => r matches Err(e) && e.tensor@ == name@ && e.kind
                    == StErrorKind::NoSuchTensor,
                Some(m) => if m.dtype.floating() {
                    r matches Ok(v) && safetensors::floats_of(m.dtype, self.bytes_at(name@), v@)
                } else {
                    r matches Err(e) && e.tensor@ == name@ && e.kind == StErrorKind::NotFloat(
                        m.dtype,
                    )
                },
            },
    ;

    fn st_has(&self, name: &str) -> (r: bool)
        requires
            self.ready(),
        ensures
            r == (self.entry_at(name@) is Some),
    {
        self.st_entry(name).is_some()
    }
}

impl<'a> TensorSource for SafeTensors<'a> {
    open spec fn ready(&self) -> bool {
        self.wf()
    }

    open spec fn entry_at(&self, name: Seq<char>) -> Option<EntryModel> {
        if self@.entries.dom().contains(name) {
            Some(self@.entries[name])
        } else {
            None
        }
    }

    open spec fn bytes_at(&self, name: Seq<char>) -> Seq<u8> {
        self.range(self@.entries[name])
    }

    fn st_entry(&self, name: &str) -> (r: Option<&StEntry>) {
        self.entry(name)
    }

    fn st_bytes(&self, name: &str) -> (r: Result<&[u8], StError>) {
        self.bytes(name)
    }

    fn st_f32(&self, name: &str) -> (r: Result<Vec<u32>, StError>) {
        self.to_f32(name)
    }
}

impl<'a> TensorSource for ShardedSafeTensors<'a> {
    open spec fn ready(&self) -> bool {
        self.wf()
    }

    open spec fn entry_at(&self, name: Seq<char>) -> Option<EntryModel> {
        match sharded::last_holder(self.shards@, name) {
            Some(i) => Some(self.shards@[i]@.entries[name]),
            None => None,
        }
    }

    open spec fn bytes_at(&self, name: Seq<char>) -> Seq<u8> {
        match sharded::last_holder(self.shards@, name) {
            Some(i) => self.shards@[i].range(self.shards@[i]@.entries[name]),
            None => Seq::empty(),
        }
    }

    fn st_entry(&self, name: &str) -> (r: Option<&StEntry>) {
        self.entry(name)
    }

    fn st_bytes(&self, name: &str) -> (r: Result<&[u8], StError>) {
        self.bytes(name)
    }

    fn st_f32(&self, name: &str) -> (r: Result<Vec<u32>, StError>) {
        self.to_f32(name)
    }
}

/// A linear weight, row by row, with the type that it was stored in.
#[derive(Debug)]
pub struct DequantizedLinear {
    pub rows: usize,
    pub cols: usize,
    pub data: Vec<Factors>,
    pub source_type: u32,
}

/// Why a linear weight could not be loaded.
#[derive(Debug, Clone, Copy, PartialEq, Eq, Structural)]
pub enum LoadErrorKind {
    /// The tensor is missing.
    NotFound,
    /// The tensor has another number of dimensions than two.
    NotTwoDims,
    /// The elements have another type than the format asks for.
    WrongDtype(StDtype),
    /// The number of elements cannot be counted.
    SizeOverflow,
    /// The elements cannot be taken apart.
    Elements(BlockFloatError),
}

/// Why a linear weight could not be loaded, and which tensor is at fault.
#[derive(Debug)]
pub struct LoadError {
    pub tensor: String,
    pub kind: LoadErrorKind,
}

/// `prefix` with `suffix` behind it.
fn joined(prefix: &str, suffix: &str) -> (r: String)
    ensures
        r@ == prefix@ + suffix@,
{
    let mut s: String = prefix.to_owned();
    s.append(suffix);
    s
}

/// The first element of the floats in `b`, or one where there is none.
pub open spec fn first_or_one(dtype: StDtype, b: Seq<u8>, g: u32) -> bool {
    if b.len() >= dtype.size_of() {
        safetensors::float_elem(dtype, b, 0, g)
    } else {
        g == F32_ONE
    }
}

/// There is an element where there are enough bytes for one.
proof fn lemma_some_element(d: StDtype, n: nat)
    ensures
        n / d.size_of() > 0 <==> n >= d.size_of(),
{
    let s = d.size_of();
    assert(s == 1 || s == 2 || s == 4 || s == 8);
    if s == 1 {
        assert(n / s == n / 1);
    } else if s == 2 {
        assert(n / s == n / 2);
    } else if s == 4 {
        assert(n / s == n / 4);
    } else {
        assert(n / s == n / 8);
    }
}

/// Rows and columns of an NVFP4 weight: two columns for each byte of a row.
pub open spec fn nvfp4_sizes(e: EntryModel) -> Option<(usize, usize)> {
    let (rows, cols) = (e.shape[0], 2 * e.shape[1]);
    if rows <= usize::MAX && cols <= usize::MAX && rows * cols <= usize::MAX {
        Some((rows as usize, cols as usize))
    } else {
        None
    }
}

/// `lin` is the NVFP4 weight `prefix` of the source, with the scale `g` for the whole tensor.
pub open spec fn is_nvfp4_linear<S: TensorSource>(
    src: &S,
    prefix: Seq<char>,
    g: u32,
    rows: usize,
    cols: usize,
    lin: DequantizedLinear,
) -> bool {
    let data = src.bytes_at(prefix + ".weight"@);
    let scales = src.bytes_at(prefix + ".weight_scale"@);
    &&& lin.rows == rows
    &&& lin.cols == cols
    &&& lin.source_type == RQ_TYPE_NVFP4
    &&& lin.data@.len() == rows * cols
    &&& forall|i: int|
        0 <= i < lin.data@.len() ==> dequant::nvfp4_factors(
            data,
            scales,
            g,
            i,
            #[trigger] lin.data@[i],
        )
}

/// `lin` is the NVFP4 weight `prefix` of the source, with the scale for the whole tensor that
/// stands under `{prefix}.weight_scale_2`.
pub open spec fn nvfp4_loaded<S: TensorSource>(
    src: &S,
    prefix: Seq<char>,
    lin: DequantizedLinear,
) -> bool {
    let shape = src.entry_at(prefix + ".weight"@)->0.shape;
    exists|g: u32|
        nvfp4_global(src, prefix, g) && #[trigger] is_nvfp4_linear(
            src,
            prefix,
            g,
            shape[0] as usize,
            (2 * shape[1]) as usize,
            lin,
        )
}

/// `g` is the scale of an NVFP4 weight for the whole tensor.
pub open spec fn nvfp4_global<S: TensorSource>(src: &S, prefix: Seq<char>, g: u32) -> bool {
    match src.entry_at(prefix + ".weight_scale_2"@) {
        Some(m) => first_or_one(m.dtype, src.bytes_at(prefix + ".weight_scale_2"@), g),
        None => g == F32_ONE,
    }
}

/// What is wrong with the tensors of an NVFP4 weight, and with which.
pub open spec fn nvfp4_fault<S: TensorSource>(src: &S, prefix: Seq<char>) -> Option<
    (Seq<char>, LoadErrorKind),
> {
    let (wn, sn, gn) = (
        prefix + ".weight"@,
        prefix + ".weight_scale"@,
        prefix + ".weight_scale_2"@,
    );
    match src.entry_at(wn) {
        None => Some((wn, LoadErrorKind::NotFound)),
        Some(e) => if e.shape.len() != 2 {
            Some((wn, LoadErrorKind::NotTwoDims))
        } else {
            match nvfp4_sizes(e) {
                None => Some((wn, LoadErrorKind::SizeOverflow)),
                Some((rows, cols)) => if src.entry_at(sn) is None {
                    Some((sn, LoadErrorKind::NotFound))
                } else if src.entry_at(gn) is Some && !src.entry_at(gn)->0.dtype.floating() {
                    Some((gn, LoadErrorKind::WrongDtype(src.entry_at(gn)->0.dtype)))
                } else {
                    match dequant::sidecar_error(
                        src.bytes_at(wn).len(),
                        src.bytes_at(sn).len(),
                        (rows * cols) as nat,
                        16,
                        8,
                    ) {
                        Some(e) => Some((wn, LoadErrorKind::Elements(e))),
                        None => None,
                    }
                },
            }
        },
    }
}

/// Loads the NVFP4 weight `prefix`: four-bit elements in `{prefix}.weight`, one E4M3 scale for
/// sixteen of them in `{prefix}.weight_scale`, and a scale for the whole tensor in
/// `{prefix}.weight_scale_2`, one where that is missing or empty.
pub fn load_nvfp4_linear<S: TensorSource>(src: &S, prefix: &str) -> (r: Result<
    DequantizedLinear,
    LoadError,
>)
    requires
        src.ready(),
    ensures
        nvfp4_fault(src, prefix@) is Some ==> (r matches Err(e) && (e.tensor@, e.kind)
            == nvfp4_fault(src, prefix@)->0),
        nvfp4_fault(src, prefix@) is None ==> (r matches Ok(lin) && nvfp4_loaded(
            src,
            prefix@,
            lin,
        )),
{
    let wn = joined(prefix, ".weight");
    let sn = joined(prefix, ".weight_scale");
    let gn = joined(prefix, ".weight_scale_2");
    let entry = match src.st_entry(wn.as_str()) {
        Some(e) => e,
        None => return Err(LoadError { tensor: wn, kind: LoadErrorKind::NotFound }),
    };
    if entry.shape.len() != 2 {
        return Err(LoadError { tensor: wn, kind: LoadErrorKind::NotTwoDims });
    }
    let wide_rows: u128 = entry.shape[0] as u128;
    let wide_cols: u128 = entry.shape[1] as u128 * 2;
    let limit: u128 = usize::MAX as u128;
    if wide_rows > limit || wide_cols > limit {
        return Err(LoadError { tensor: wn, kind: LoadErrorKind::SizeOverflow });
    }
    let rows: usize = wide_rows as usize;
    let cols: usize = wide_cols as usize;
    let n: usize = match rows.checked_mul(cols) {
        Some(n) => n,
        None => return Err(LoadError { tensor: wn, kind: LoadErrorKind::SizeOverflow }),
    };
    let data = match src.st_bytes(wn.as_str()) {
        Ok(b) => b,
        Err(_) => return Err(LoadError { tensor: wn, kind: LoadErrorKind::NotFound }),
    };
    let scales = match src.st_bytes(sn.as_str()) {
        Ok(b) => b,
        Err(_) => return Err(LoadError { tensor: sn, kind: LoadErrorKind::NotFound }),
    };
    let global: u32 = match src.st_entry(gn.as_str()) {
        None => F32_ONE,
        Some(m) => match src.st_f32(gn.as_str()) {
            Ok(v) => {
                proof {
                    lemma_some_element(m.dtype, src.bytes_at(gn@).len());
                }
                if v.len() > 0 {
                    v[0]
                } else {
                    F32_ONE
                }
            },
            Err(_) => return Err(
                LoadError { tensor: gn, kind: LoadErrorKind::WrongDtype(m.dtype) },
            ),
        },
    };
    match dequant_nvfp4(data, scales, global, n) {
        Ok(out) => {
            let lin = DequantizedLinear { rows, cols, data: out, source_type: RQ_TYPE_NVFP4 };
            assert(nvfp4_global(src, prefix@, global));
            assert(is_nvfp4_linear(src, prefix@, global, rows, cols, lin));
            assert(nvfp4_loaded(src, prefix@, lin));
            Ok(lin)
        },
        Err(e) => Err(LoadError { tensor: wn, kind: LoadErrorKind::Elements(e) }),
    }
}

/// How many scales there are and which shape they have decide what they apply to.
#[derive(Debug, Clone, Copy, PartialEq, Eq, Structural)]
pub enum ScaleKind {
    Unit,
    PerTensor,
    PerChannel,
    Block2d,
}

/// What `count` scales of a tensor with this shape apply to in a weight of `rows` rows: nothing,
/// the whole weight where there is one, tiles where their first dimension is not the number of
/// rows, rows where there are as many, tiles otherwise.
pub open spec fn scale_kind(count: nat, shape: Seq<u64>, rows: usize) -> ScaleKind {
    if count == 0 {
        ScaleKind::Unit
    } else if count == 1 {
        ScaleKind::PerTensor
    } else if shape.len() >= 2 && shape[0] as usize != rows {
        ScaleKind::Block2d
    } else if count == rows {
        ScaleKind::PerChannel
    } else {
        ScaleKind::Block2d
    }
}

/// The scale that applies to the element in row `r` and column `c`.
pub open spec fn kind_scale(
    kind: ScaleKind,
    vals: Seq<u32>,
    block: (usize, usize),
    r: nat,
    c: nat,
    cols: nat,
) -> u32 {
    match kind {
        ScaleKind::Unit => F32_ONE,
        ScaleKind::PerTensor => vals[0],
        ScaleKind::PerChannel => dequant::scale_or_one(vals, r as int),
        ScaleKind::Block2d => dequant::scale_or_one(
            vals,
            (r / block.0 as nat * dequant::tiles(cols, block.1 as nat) + c / block.1 as nat) as int,
        ),
    }
}

/// What the scales `vals` of a tensor with this shape apply to. Only where they apply to tiles does
/// `block`, the height and width of one, count.
pub fn choose_scale<'a>(vals: &'a [u32], shape: &[u64], rows: usize, block: (usize, usize)) -> (r:
    Fp8Scale<'a>)
    ensures
        r.wf() == (scale_kind(vals@.len(), shape@, rows) == ScaleKind::Block2d ==> block.0 > 0
            && block.1 > 0),
        forall|i: nat, j: nat, cols: nat|
            #[trigger] r.scale_at(i, j, cols) == kind_scale(
                scale_kind(vals@.len(), shape@, rows),
                vals@,
                block,
                i,
                j,
                cols,
            ),
{
    let n: usize = vals.len();
    if n == 0 {
        Fp8Scale::Unit
    } else if n == 1 {
        Fp8Scale::PerTensor(vals[0])
    } else if shape.len() >= 2 && shape[0] as usize != rows {
        Fp8Scale::Block2d { scales: vals, bh: block.0, bw: block.1 }
    } else if n == rows {
        Fp8Scale::PerChannel(vals)
    } else {
        Fp8Scale::Block2d { scales: vals, bh: block.0, bw: block.1 }
    }
}

/// The type number of a dense eight-bit element type.
pub open spec fn fp8_type(d: StDtype) -> Option<u32> {
    match d {
        StDtype::F8E4M3 => Some(RQ_TYPE_FP8_E4M3),
        StDtype::F8E5M2 => Some(RQ_TYPE_FP8_E5M2),
        _ => None,
    }
}

/// Rows and columns of a weight, where its elements can be counted.
pub open spec fn weight_sizes(shape: Seq<u64>) -> Option<(usize, usize)> {
    if geometry::elem_count(shape) is None || geometry::elem_count(shape)->0 > usize::MAX {
        None
    } else if shape.len() == 0 {
        Some((1, 1))
    } else if shape.len() == 1 {
        Some((1, shape[0] as usize))
    } else if geometry::elem_count(shape.drop_first()) is None || shape[0] > usize::MAX
        || geometry::elem_count(shape.drop_first())->0 > usize::MAX || shape[0]
        * geometry::elem_count(shape.drop_first())->0 > usize::MAX {
        None
    } else {
        Some((shape[0] as usize, geometry::elem_count(shape.drop_first())->0 as usize))
    }
}

/// Rows and columns of [`weight_sizes`].
fn sizes_of(e: &StEntry) -> (r: Option<(usize, usize)>)
    ensures
        r == weight_sizes(e.shape@),
        r matches Some((rows, cols)) ==> rows * cols <= usize::MAX,
{
    let n: usize = e.shape.len();
    match count_elems(e.shape.as_slice()) {
        None => return None,
        Some(c) => if c as u128 > usize::MAX as u128 {
            return None;
        },
    }
    if n == 0 {
        assert(1usize * 1usize == 1);
        return Some((1, 1));
    }
    if n == 1 {
        proof {
            let c = e.shape@[0] as usize;
            assert(1usize * c == c) by (nonlinear_arith);
            assert(e.shape@.drop_last() =~= Seq::<u64>::empty());
            assert(geometry::elem_count(e.shape@.drop_last()) == Some(1u64));
            assert(e.shape@.last() == e.shape@[0]);
        }
        return Some((1, e.shape[0] as usize));
    }
    let rest = vstd::slice::slice_subrange(e.shape.as_slice(), 1, n);
    assert(rest@ =~= e.shape@.drop_first());
    let cols: u64 = match count_elems(rest) {
        Some(c) => c,
        None => return None,
    };
    let rows: u64 = e.shape[0];
    let limit: u128 = usize::MAX as u128;
    if rows as u128 > limit || cols as u128 > limit {
        return None;
    }
    let (rows, cols): (usize, usize) = (rows as usize, cols as usize);
    match rows.checked_mul(cols) {
        Some(_) => Some((rows, cols)),
        None => None,
    }
}

/// The name of the tensor with the scales of a dense eight-bit weight: `weight_scale_inv` before
/// `weight_scale`.
pub open spec fn fp8_scale_name<S: TensorSource>(src: &S, prefix: Seq<char>) -> Option<Seq<char>> {
    if src.entry_at(prefix + ".weight_scale_inv"@) is Some {
        Some(prefix + ".weight_scale_inv"@)
    } else if src.entry_at(prefix + ".weight_scale"@) is Some {
        Some(prefix + ".weight_scale"@)
    } else {
        None
    }
}

/// What is wrong with the tensors of a dense eight-bit weight, and with which.
pub open spec fn fp8_fault<S: TensorSource>(src: &S, prefix: Seq<char>) -> Option<
    (Seq<char>, LoadErrorKind),
> {
    let wn = prefix + ".weight"@;
    match src.entry_at(wn) {
        None => Some((wn, LoadErrorKind::NotFound)),
        Some(e) => if fp8_type(e.dtype) is None {
            Some((wn, LoadErrorKind::WrongDtype(e.dtype)))
        } else {
            match weight_sizes(e.shape) {
                None => Some((wn, LoadErrorKind::SizeOverflow)),
                Some((rows, cols)) => match fp8_scale_name(src, prefix) {
                    Some(sn) if !src.entry_at(sn)->0.dtype.floating() => Some(
                        (sn, LoadErrorKind::WrongDtype(src.entry_at(sn)->0.dtype)),
                    ),
                    _ => if src.bytes_at(wn).len() < rows * cols {
                        Some(
                            (
                                wn,
                                LoadErrorKind::Elements(
                                    BlockFloatError::DataTooShort {
                                        have: src.bytes_at(wn).len() as usize,
                                        need: (rows * cols) as usize,
                                    },
                                ),
                            ),
                        )
                    } else {
                        None
                    },
                },
            }
        },
    }
}

/// The scales of a dense eight-bit weight: those of the scale tensor, none where there is none.
pub open spec fn fp8_scales<S: TensorSource>(src: &S, prefix: Seq<char>, vals: Seq<u32>) -> bool {
    match fp8_scale_name(src, prefix) {
        Some(sn) => safetensors::floats_of(src.entry_at(sn)->0.dtype, src.bytes_at(sn), vals),
        None => vals.len() == 0,
    }
}

/// The shape of the scale tensor of a dense eight-bit weight.
pub open spec fn fp8_scale_shape<S: TensorSource>(src: &S, prefix: Seq<char>) -> Seq<u64> {
    match fp8_scale_name(src, prefix) {
        Some(sn) => src.entry_at(sn)->0.shape,
        None => Seq::empty(),
    }
}

/// How many scales a dense eight-bit weight has.
pub open spec fn fp8_scale_count<S: TensorSource>(src: &S, prefix: Seq<char>) -> nat {
    match fp8_scale_name(src, prefix) {
        Some(sn) => src.bytes_at(sn).len() / src.entry_at(sn)->0.dtype.size_of(),
        None => 0,
    }
}

/// A dense eight-bit weight can be loaded, has elements, and its scales apply to tiles.
pub open spec fn fp8_in_tiles<S: TensorSource>(src: &S, prefix: Seq<char>) -> bool {
    &&& fp8_fault(src, prefix) is None
    &&& weight_sizes(src.entry_at(prefix + ".weight"@)->0.shape) matches Some((rows, cols))
    &&& rows * cols > 0
    &&& scale_kind(fp8_scale_count(src, prefix), fp8_scale_shape(src, prefix), rows)
        == ScaleKind::Block2d
}

/// `lin` is the dense eight-bit weight `prefix` of the source with the scales `vals`.
pub open spec fn is_fp8_linear<S: TensorSource>(
    src: &S,
    prefix: Seq<char>,
    block: (usize, usize),
    vals: Seq<u32>,
    lin: DequantizedLinear,
) -> bool {
    let wn = prefix + ".weight"@;
    let e = src.entry_at(wn)->0;
    let kind = scale_kind(vals.len(), fp8_scale_shape(src, prefix), lin.rows);
    &&& weight_sizes(e.shape) == Some((lin.rows, lin.cols))
    &&& fp8_type(e.dtype) == Some(lin.source_type)
    &&& lin.data@.len() == lin.rows * lin.cols
    &&& forall|i: int|
        0 <= i < lin.data@.len() ==> {
            &&& (#[trigger] lin.data@[i]).global == F32_ONE
            &&& if lin.source_type == RQ_TYPE_FP8_E4M3 {
                crate::blockfloat::e4m3_decodes(src.bytes_at(wn)[i], lin.data@[i].elem)
            } else {
                crate::blockfloat::e5m2_decodes(src.bytes_at(wn)[i], lin.data@[i].elem)
            }
            &&& lin.data@[i].scale == kind_scale(
                kind,
                vals,
                block,
                (i / lin.cols as int) as nat,
                (i % lin.cols as int) as nat,
                lin.cols as nat,
            )
        }
}

/// `lin` is the dense eight-bit weight `prefix` of the source with the scales of its scale tensor.
pub open spec fn fp8_loaded<S: TensorSource>(
    src: &S,
    prefix: Seq<char>,
    block: (usize, usize),
    lin: DequantizedLinear,
) -> bool {
    exists|vals: Seq<u32>|
        fp8_scales(src, prefix, vals) && #[trigger] is_fp8_linear(src, prefix, block, vals, lin)
}

/// Loads the dense eight-bit weight `{prefix}.weight` with the scales in
/// `{prefix}.weight_scale_inv` or `{prefix}.weight_scale`. `block` is the height and width of a
/// tile where the scales apply to tiles.
pub fn load_fp8_linear<S: TensorSource>(src: &S, prefix: &str, block: (usize, usize)) -> (r: Result<
    DequantizedLinear,
    LoadError,
>)
    requires
        src.ready(),
        fp8_in_tiles(src, prefix@) ==> block.0 > 0 && block.1 > 0,
    ensures
        fp8_fault(src, prefix@) is Some ==> (r matches Err(e) && (e.tensor@, e.kind) == fp8_fault(
            src,
            prefix@,
        )->0),
        fp8_fault(src, prefix@) is None ==> (r matches Ok(lin) && fp8_loaded(
            src,
            prefix@,
            block,
            lin,
        )),
{
    let wn = joined(prefix, ".weight");
    let entry = match src.st_entry(wn.as_str()) {
        Some(e) => e,
        None => return Err(LoadError { tensor: wn, kind: LoadErrorKind::NotFound }),
    };
    let ty: u32 = match entry.dtype {
        StDtype::F8E4M3 => RQ_TYPE_FP8_E4M3,
        StDtype::F8E5M2 => RQ_TYPE_FP8_E5M2,
        other => return Err(LoadError { tensor: wn, kind: LoadErrorKind::WrongDtype(other) }),
    };
    let (rows, cols): (usize, usize) = match sizes_of(entry) {
        Some(x) => x,
        None => return Err(LoadError { tensor: wn, kind: LoadErrorKind::SizeOverflow }),
    };
    let data = match src.st_bytes(wn.as_str()) {
        Ok(b) => b,
        Err(_) => return Err(LoadError { tensor: wn, kind: LoadErrorKind::NotFound }),
    };
    let inv = joined(prefix, ".weight_scale_inv");
    let plain = joined(prefix, ".weight_scale");
    let name = if src.st_has(inv.as_str()) {
        inv
    } else {
        plain
    };
    let none: Vec<u64> = Vec::new();
    let (vals, shape): (Vec<u32>, &[u64]) = match src.st_entry(name.as_str()) {
        Some(e) => match src.st_f32(name.as_str()) {
            Ok(v) => (v, e.shape.as_slice()),
            Err(_) => return Err(
                LoadError { tensor: name, kind: LoadErrorKind::WrongDtype(e.dtype) },
            ),
        },
        None => (Vec::new(), none.as_slice()),
    };
    assert(fp8_scales(src, prefix@, vals@));
    assert(shape@ =~= fp8_scale_shape(src, prefix@));
    assert(vals@.len() == fp8_scale_count(src, prefix@));
    let scale = choose_scale(vals.as_slice(), shape, rows, block);
    match dequant_fp8(ty, data, rows, cols, scale) {
        Ok(out) => {
            let lin = DequantizedLinear { rows, cols, data: out, source_type: ty };
            proof {
                let kind = scale_kind(vals@.len(), fp8_scale_shape(src, prefix@), rows);
                assert forall|i: int| 0 <= i < lin.data@.len() implies (
                #[trigger] lin.data@[i]).scale == kind_scale(
                    kind,
                    vals@,
                    block,
                    (i / cols as int) as nat,
                    (i % cols as int) as nat,
                    cols as nat,
                ) by {
                    assert(dequant::fp8_factors(ty, data@, cols as nat, scale, i, lin.data@[i]));
                }
                assert(is_fp8_linear(src, prefix@, block, vals@, lin));
                assert(fp8_loaded(src, prefix@, block, lin));
            }
            Ok(lin)
        },
        Err(e) => Err(LoadError { tensor: wn, kind: LoadErrorKind::Elements(e) }),
    }
}

} // verus!
