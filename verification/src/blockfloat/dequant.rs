//! Which code and which scale make up each element of a block-scaled tensor.
//!
//! An element's value is `elem * (scale * global)`, each factor a single-precision number held by
//! its bits. The products themselves are left to the caller.
use vstd::arithmetic::power2::*;
use vstd::prelude::*;
use crate::blockfloat;
use crate::blockfloat::{e2m1_to_f32, e4m3_to_f32, e5m2_to_f32, e8m0_to_f32, e8m0_to_f32_half, ue4m3_to_f32, NibbleOrder, F32_ONE};
use crate::blockfloat::{GGML_TYPE_MXFP4, GGML_TYPE_NVFP4, RQ_TYPE_FP8_E4M3, RQ_TYPE_FP8_E5M2, RQ_TYPE_MXFP4_OCP, RQ_TYPE_MXFP8_E4M3, RQ_TYPE_NVFP4};
use crate::minifloat;
use crate::minifloat::{widen, F32_SIGN};

verus! {

/// The factors of one element.
#[derive(Debug, Clone, Copy, PartialEq, Eq, Structural)]
pub struct Factors {
    pub elem: u32,
    pub scale: u32,
    pub global: u32,
}

/// Why a tensor cannot be taken apart.
#[derive(Debug, Clone, Copy, PartialEq, Eq, Structural)]
pub enum BlockFloatError {
    /// The number of elements, or of columns, is not a whole number of blocks.
    NotWholeBlocks { n: usize, block: usize },
    /// Too few bytes of elements.
    DataTooShort { have: usize, need: usize },
    /// Too few bytes of scales.
    ScalesTooShort { have: usize, need: usize },
    /// Not a dense eight-bit type.
    NotDenseFp8(u32),
    /// No block-float type goes with this kind of scales.
    NotBlockFloat(u32),
}

/// The scale of a dense eight-bit tensor.
#[derive(Debug, Clone, Copy)]
pub enum Fp8Scale<'a> {
    /// Elements are in their final units.
    Unit,
    /// One scale for all elements.
    PerTensor(u32),
    /// One scale per row; one for rows behind the last scale.
    PerChannel(&'a [u32]),
    /// One scale per tile of `bh` rows and `bw` columns, row by row; one behind the last scale.
    Block2d { scales: &'a [u32], bh: usize, bw: usize },
}

/// Where the scales of a tensor are.
#[derive(Debug, Clone, Copy)]
pub enum ScaleSource<'a> {
    /// Inside the blocks.
    Interleaved,
    /// In another tensor of bytes, with a scale for the whole tensor besides.
    Sidecar { scales: &'a [u8], global: u32 },
    /// In a tensor of floats.
    Float(Fp8Scale<'a>),
}

/// The `i`-th scale, or one behind the last.
pub open spec fn scale_or_one(scales: Seq<u32>, i: int) -> u32 {
    if i < scales.len() {
        scales[i]
    } else {
        F32_ONE
    }
}

/// How many tiles of `bw` columns `cols` columns take.
pub open spec fn tiles(cols: nat, bw: nat) -> nat {
    if cols % bw == 0 {
        cols / bw
    } else {
        cols / bw + 1
    }
}

impl<'a> Fp8Scale<'a> {
    /// The scale of the element in row `r` and column `c`.
    pub open spec fn scale_at(self, r: nat, c: nat, cols: nat) -> u32 {
        match self {
            Fp8Scale::Unit => F32_ONE,
            Fp8Scale::PerTensor(s) => s,
            Fp8Scale::PerChannel(s) => scale_or_one(s@, r as int),
            Fp8Scale::Block2d { scales, bh, bw } => scale_or_one(
                scales@,
                (r / bh as nat * tiles(cols, bw as nat) + c / bw as nat) as int,
            ),
        }
    }

    /// Tiles are not empty.
    pub open spec fn wf(self) -> bool {
        match self {
            Fp8Scale::Block2d { scales, bh, bw } => bh > 0 && bw > 0,
            _ => true,
        }
    }

    /// The place of the scale can be computed: tiles are not empty and can be counted.
    pub open spec fn has_place(self, r: nat, c: nat, cols: nat) -> bool {
        match self {
            Fp8Scale::Block2d { scales, bh, bw } => {
                &&& bh > 0
                &&& bw > 0
                &&& r / bh as nat * tiles(cols, bw as nat) + c / bw as nat <= usize::MAX
            },
            _ => true,
        }
    }

    /// The scale of the element in row `r` and column `c` of `cols` columns.
    pub fn at(&self, r: usize, c: usize, cols: usize) -> (s: u32)
        requires
            self.has_place(r as nat, c as nat, cols as nat),
        ensures
            s == self.scale_at(r as nat, c as nat, cols as nat),
    {
        match self {
            Fp8Scale::Unit => F32_ONE,
            Fp8Scale::PerTensor(s) => *s,
            Fp8Scale::PerChannel(s) => if r < s.len() {
                s[r]
            } else {
                F32_ONE
            },
            Fp8Scale::Block2d { scales, bh, bw } => {
                proof {
                    lemma_tiles(cols as nat, *bw as nat);
                    let (down, across) = (r as nat / *bh as nat, tiles(cols as nat, *bw as nat));
                    assert(0 <= down * across) by (nonlinear_arith)
                        requires
                            0 <= down,
                            0 <= across,
                    ;
                }
                let across: usize = if cols % *bw == 0 {
                    cols / *bw
                } else {
                    cols / *bw + 1
                };
                let down: usize = r / *bh;
                let along: usize = c / *bw;
                let i: usize = down * across + along;
                if i < scales.len() {
                    scales[i]
                } else {
                    F32_ONE
                }
            },
        }
    }
}

/// There are no more tiles than columns.
proof fn lemma_tiles(cols: nat, bw: nat)
    requires
        bw > 0,
    ensures
        tiles(cols, bw) <= cols,
{
    let (w, n) = (bw as int, cols as int);
    let q = n / w;
    let rest = n % w;
    vstd::arithmetic::div_mod::lemma_fundamental_div_mod(n, w);
    vstd::arithmetic::div_mod::lemma_mod_bound(n, w);
    assert(q <= n && (rest != 0 ==> q + 1 <= n)) by (nonlinear_arith)
        requires
            n == w * q + rest,
            rest >= 0,
            w >= 1,
            q >= 0,
    ;
}

/// The scale of an element has a place that can be computed where the elements can be counted.
proof fn lemma_has_place(scale: Fp8Scale<'_>, r: nat, c: nat, cols: nat)
    requires
        scale.wf(),
        c < cols,
        (r + 1) * cols <= usize::MAX,
    ensures
        scale.has_place(r, c, cols),
{
    if let Fp8Scale::Block2d { scales, bh, bw } = scale {
        lemma_tiles(cols, bw as nat);
        let (h, w) = (bh as nat, bw as nat);
        let (down, across, along) = (r / h, tiles(cols, w), c / w);
        assert(down <= r) by (nonlinear_arith)
            requires
                down == r / h,
                h > 0,
        ;
        assert(along <= c) by (nonlinear_arith)
            requires
                along == c / w,
                w > 0,
        ;
        assert(down * across + along <= (r + 1) * cols) by (nonlinear_arith)
            requires
                down <= r,
                across <= cols,
                along <= c < cols,
                0 <= down,
                0 <= across,
        ;
    }
}

/// The four-bit code of element `i`.
pub open spec fn fp4_code(bytes: Seq<u8>, i: int, block: int, order: NibbleOrder) -> u8 {
    match order {
        NibbleOrder::Adjacent => if i % 2 == 0 {
            bytes[i / 2] % 16
        } else {
            bytes[i / 2] / 16
        },
        NibbleOrder::SplitHalf => {
            let half = block / 2;
            let j = i % block;
            if j < half {
                bytes[i / block * half + j] % 16
            } else {
                bytes[i / block * half + (j - half)] / 16
            }
        },
    }
}

/// Four-bit codes two to a byte: adjacent codes, or those that are half a block apart.
pub open spec fn packed_fp4(codes: Seq<u8>, block: int, order: NibbleOrder) -> Seq<u8> {
    Seq::new(
        codes.len() / 2,
        |p: int|
            match order {
                NibbleOrder::Adjacent => (codes[2 * p] + 16 * codes[2 * p + 1]) as u8,
                NibbleOrder::SplitHalf => {
                    let half = block / 2;
                    let first = p / half * block + p % half;
                    (codes[first] + 16 * codes[first + half]) as u8
                },
            },
    )
}

/// Unpacking gives back the codes that were packed, in either order.
pub proof fn law_unpacking_undoes_packing(codes: Seq<u8>, block: int, order: NibbleOrder, i: int)
    requires
        codes.len() % 2 == 0,
        forall|j: int| 0 <= j < codes.len() ==> #[trigger] codes[j] < 16,
        order == NibbleOrder::SplitHalf ==> block >= 2 && block % 2 == 0 && codes.len() as int
            % block == 0,
        0 <= i < codes.len(),
    ensures
        fp4_code(packed_fp4(codes, block, order), i, block, order) == codes[i],
{
    match order {
        NibbleOrder::Adjacent => {
            let p = i / 2;
            let (low, high) = (codes[2 * p], codes[2 * p + 1]);
            assert(packed_fp4(codes, block, order)[p] == (low + 16 * high) as u8);
        },
        NibbleOrder::SplitHalf => {
            let half = block / 2;
            let k = i / block;
            let j = i % block;
            let at = if j < half {
                j
            } else {
                j - half
            };
            let p = k * half + at;
            vstd::arithmetic::div_mod::lemma_fundamental_div_mod(i, block);
            vstd::arithmetic::div_mod::lemma_mod_bound(i, block);
            vstd::arithmetic::div_mod::lemma_fundamental_div_mod(codes.len() as int, block);
            vstd::arithmetic::div_mod::lemma_fundamental_div_mod_converse(p, half, k, at);
            let blocks = codes.len() as int / block;
            lemma_in_block(codes.len() as int, blocks, block, half, i, k, j, at);
            let (low, high) = (codes[k * block + at], codes[k * block + at + half]);
            assert(low < 16 && high < 16);
            assert(packed_fp4(codes, block, order)[p] == (low + 16 * high) as u8);
        },
    }
}

/// Where the codes of a block and their byte stand.
proof fn lemma_in_block(
    n: int,
    blocks: int,
    block: int,
    half: int,
    i: int,
    k: int,
    j: int,
    at: int,
)
    by (nonlinear_arith)
    requires
        block == 2 * half,
        half >= 1,
        n == block * blocks,
        i == block * k + j,
        0 <= i < n,
        0 <= j < block,
        0 <= at < half,
        at <= j,
        k >= 0,
    ensures
        k < blocks,
        0 <= k * half + at < n / 2,
        0 <= k * block + at,
        k * block + at + half < n,
        i == k * block + j,
{
    assert(k < blocks);
    assert(k * block + block <= blocks * block);
    assert(k * half + half <= blocks * half);
    assert(n / 2 == blocks * half);
}

/// The four-bit codes of `n` elements. Only codes in split halves stand in blocks.
pub fn unpack_fp4(bytes: &[u8], n: usize, block: usize, order: NibbleOrder) -> (r: Vec<u8>)
    requires
        n <= 2 * bytes@.len(),
        order == NibbleOrder::SplitHalf ==> block >= 2 && block % 2 == 0 && n % block == 0,
    ensures
        r@.len() == n,
        forall|i: int| 0 <= i < n ==> #[trigger] r@[i] == fp4_code(bytes@, i, block as int, order),
{
    let mut out: Vec<u8> = Vec::new();
    let half: usize = block / 2;
    let total: usize = bytes.len();
    let mut i: usize = 0;
    while i < n
        invariant
            i <= n <= 2 * total,
            total == bytes@.len(),
            half == block / 2,
            order == NibbleOrder::SplitHalf ==> block >= 2 && block == 2 * half && n % block == 0,
            out@.len() == i,
            forall|k: int|
                0 <= k < i ==> #[trigger] out@[k] == fp4_code(bytes@, k, block as int, order),
        decreases n - i,
    {
        let code: u8 = match order {
            NibbleOrder::Adjacent => if i % 2 == 0 {
                bytes[i / 2] % 16
            } else {
                bytes[i / 2] / 16
            },
            NibbleOrder::SplitHalf => {
                let q: usize = i / block;
                let j: usize = i % block;
                proof {
                    let nb = n as int / block as int;
                    vstd::arithmetic::div_mod::lemma_fundamental_div_mod(n as int, block as int);
                    vstd::arithmetic::div_mod::lemma_fundamental_div_mod(i as int, block as int);
                    assert(q < nb) by (nonlinear_arith)
                        requires
                            i as int == block as int * q as int + j as int,
                            n as int == block as int * nb,
                            i < n,
                            j >= 0,
                            block > 0,
                    ;
                    assert(q * half + half <= nb * half) by (nonlinear_arith)
                        requires
                            q < nb,
                            half >= 0,
                    ;
                    assert(nb * half * 2 == n) by (nonlinear_arith)
                        requires
                            n as int == block as int * nb,
                            block == 2 * half,
                    ;
                    assert(0 <= q * half) by (nonlinear_arith)
                        requires
                            q >= 0,
                            half >= 0,
                    ;
                }
                if j < half {
                    bytes[q * half + j] % 16
                } else {
                    bytes[q * half + (j - half)] / 16
                }
            },
        };
        out.push(code);
        i = i + 1;
    }
    out
}

/// `r` is twice the value of the E2M1 code.
pub open spec fn e2m1_doubled(code: u8, r: u32) -> bool {
    blockfloat::is_f32(r, (code / 8) % 2 == 1, minifloat::scaled((code % 8) as nat, 1, 149))
}

/// Twice the value of an E2M1 code.
fn twice_e2m1(code: u8) -> (r: u32)
    ensures
        e2m1_doubled(code, r),
{
    proof {
        lemma2_to64();
    }
    let bits: u32 = widen((code % 8) as u32, 1, 149);
    if (code / 8) % 2 == 1 {
        bits + F32_SIGN
    } else {
        bits
    }
}

/// The code of element `i` of MXFP4 blocks.
pub open spec fn ggml_code(bytes: Seq<u8>, i: int) -> u8 {
    let blk = i / 32 * 17;
    let j = i % 32;
    if j < 16 {
        bytes[blk + 1 + j] % 16
    } else {
        bytes[blk + 1 + (j - 16)] / 16
    }
}

/// Element `i` of MXFP4 blocks: a scale byte, then sixteen bytes of codes in split halves.
pub open spec fn mxfp4_ggml_factors(bytes: Seq<u8>, i: int, f: Factors) -> bool {
    &&& e2m1_doubled(ggml_code(bytes, i), f.elem)
    &&& blockfloat::is_f32(f.scale, false, blockfloat::e8m0_half_mag(bytes[i / 32 * 17]))
    &&& f.global == F32_ONE
}

/// The factors of the elements of `n / 32` MXFP4 blocks.
pub fn dequant_mxfp4_ggml_row(bytes: &[u8], n: usize) -> (r: Vec<Factors>)
    requires
        n / 32 * 17 <= bytes@.len(),
    ensures
        r@.len() == n / 32 * 32,
        forall|i: int| 0 <= i < r@.len() ==> mxfp4_ggml_factors(bytes@, i, #[trigger] r@[i]),
{
    let mut out: Vec<Factors> = Vec::new();
    let m: usize = n / 32 * 32;
    let mut i: usize = 0;
    while i < m
        invariant
            i <= m == n / 32 * 32,
            n / 32 * 17 <= bytes@.len(),
            out@.len() == i,
            forall|k: int| 0 <= k < i ==> mxfp4_ggml_factors(bytes@, k, #[trigger] out@[k]),
        decreases m - i,
    {
        let blk: usize = i / 32 * 17;
        let j: usize = i % 32;
        let code: u8 = if j < 16 {
            bytes[blk + 1 + j] % 16
        } else {
            bytes[blk + 1 + (j - 16)] / 16
        };
        out.push(
            Factors {
                elem: twice_e2m1(code),
                scale: e8m0_to_f32_half(bytes[blk]),
                global: F32_ONE,
            },
        );
        i = i + 1;
    }
    out
}

/// The code of element `i` of self-contained NVFP4 blocks.
pub open spec fn nvfp4_code(bytes: Seq<u8>, i: int) -> u8 {
    let at = i / 64 * 36 + 4 + i % 64 / 16 * 8;
    let j = i % 16;
    if j < 8 {
        bytes[at + j] % 16
    } else {
        bytes[at + (j - 8)] / 16
    }
}

/// The scale byte of element `i` of self-contained NVFP4 blocks.
pub open spec fn nvfp4_scale(bytes: Seq<u8>, i: int) -> u8 {
    bytes[i / 64 * 36 + i % 64 / 16]
}

/// Element `i` of self-contained NVFP4 blocks: four scale bytes for sixteen elements each, then
/// eight bytes of codes in split halves for each of the four.
pub open spec fn nvfp4_ggml_factors(bytes: Seq<u8>, i: int, f: Factors) -> bool {
    &&& e2m1_doubled(nvfp4_code(bytes, i), f.elem)
    &&& blockfloat::ue4m3_decodes(nvfp4_scale(bytes, i), f.scale)
    &&& f.global == F32_ONE
}

/// The factors of element `i` of self-contained NVFP4 blocks.
fn nvfp4_ggml_at(bytes: &[u8], i: usize) -> (r: Factors)
    requires
        i / 64 * 36 + 36 <= bytes@.len(),
    ensures
        nvfp4_ggml_factors(bytes@, i as int, r),
{
    let blk: usize = i / 64 * 36;
    let s: usize = i % 64 / 16;
    let j: usize = i % 16;
    let at: usize = blk + 4 + s * 8;
    let code: u8 = if j < 8 {
        bytes[at + j] % 16
    } else {
        bytes[at + (j - 8)] / 16
    };
    Factors { elem: twice_e2m1(code), scale: ue4m3_to_f32(bytes[blk + s]), global: F32_ONE }
}

/// The factors of the elements of `n / 64` self-contained NVFP4 blocks.
pub fn dequant_nvfp4_ggml_row(bytes: &[u8], n: usize) -> (r: Vec<Factors>)
    requires
        n / 64 * 36 <= bytes@.len(),
    ensures
        r@.len() == n / 64 * 64,
        forall|i: int| 0 <= i < r@.len() ==> nvfp4_ggml_factors(bytes@, i, #[trigger] r@[i]),
{
    let mut out: Vec<Factors> = Vec::new();
    let m: usize = n / 64 * 64;
    let mut i: usize = 0;
    while i < m
        invariant
            i <= m == n / 64 * 64,
            n / 64 * 36 <= bytes@.len(),
            out@.len() == i,
            forall|k: int| 0 <= k < i ==> nvfp4_ggml_factors(bytes@, k, #[trigger] out@[k]),
        decreases m - i,
    {
        assert(i / 64 < n / 64);
        out.push(nvfp4_ggml_at(bytes, i));
        i = i + 1;
    }
    out
}

/// `r` is the value of an E8M0 scale, or zero for the code that is no number.
pub open spec fn e8m0_or_zero(e: u8, r: u32) -> bool {
    if e == 0xff {
        r == 0
    } else {
        blockfloat::e8m0_decodes(e, r)
    }
}

/// The value of an E8M0 scale, or zero.
fn mx_scale(e: u8) -> (r: u32)
    ensures
        e8m0_or_zero(e, r),
{
    if e == 0xff {
        0
    } else {
        e8m0_to_f32(e)
    }
}

/// What the data and scale bytes of `n` elements in blocks must satisfy: whole blocks, `per` bytes
/// of data for each block, one scale byte for each block.
pub open spec fn sidecar_error(
    data: nat,
    scales: nat,
    n: nat,
    block: nat,
    per: nat,
) -> Option<BlockFloatError> {
    if n % block != 0 {
        Some(BlockFloatError::NotWholeBlocks { n: n as usize, block: block as usize })
    } else if data < n / block * per {
        Some(
            BlockFloatError::DataTooShort {
                have: data as usize,
                need: (n / block * per) as usize,
            },
        )
    } else if scales < n / block {
        Some(
            BlockFloatError::ScalesTooShort { have: scales as usize, need: (n / block) as usize },
        )
    } else {
        None
    }
}

/// Element `i` of MXFP4 with adjacent nibbles and E8M0 scales aside.
pub open spec fn mxfp4_ocp_factors(data: Seq<u8>, scales: Seq<u8>, i: int, f: Factors) -> bool {
    &&& blockfloat::e2m1_decodes(fp4_code(data, i, 32, NibbleOrder::Adjacent), f.elem)
    &&& e8m0_or_zero(scales[i / 32], f.scale)
    &&& f.global == F32_ONE
}

/// The factors of `n` MXFP4 elements whose scales are aside.
pub fn dequant_mxfp4_ocp(data: &[u8], scales: &[u8], n: usize) -> (r: Result<
    Vec<Factors>,
    BlockFloatError,
>)
    ensures
        match sidecar_error(data@.len(), scales@.len(), n as nat, 32, 16) {
            Some(e) => r == Err::<Vec<Factors>, _>(e),
            None => r matches Ok(v) && v@.len() == n && forall|i: int|
                0 <= i < n ==> mxfp4_ocp_factors(data@, scales@, i, #[trigger] v@[i]),
        },
{
    if n % 32 != 0 {
        return Err(BlockFloatError::NotWholeBlocks { n, block: 32 });
    }
    if data.len() < n / 2 {
        return Err(BlockFloatError::DataTooShort { have: data.len(), need: n / 2 });
    }
    if scales.len() < n / 32 {
        return Err(BlockFloatError::ScalesTooShort { have: scales.len(), need: n / 32 });
    }
    let codes = unpack_fp4(data, n, 32, NibbleOrder::Adjacent);
    let mut out: Vec<Factors> = Vec::new();
    let mut i: usize = 0;
    while i < n
        invariant
            i <= n,
            n % 32 == 0,
            n / 32 <= scales@.len(),
            codes@.len() == n,
            forall|k: int|
                0 <= k < n ==> #[trigger] codes@[k] == fp4_code(
                    data@,
                    k,
                    32,
                    NibbleOrder::Adjacent,
                ),
            out@.len() == i,
            forall|k: int|
                0 <= k < i ==> mxfp4_ocp_factors(data@, scales@, k, #[trigger] out@[k]),
        decreases n - i,
    {
        out.push(
            Factors {
                elem: e2m1_to_f32(codes[i]),
                scale: mx_scale(scales[i / 32]),
                global: F32_ONE,
            },
        );
        i = i + 1;
    }
    Ok(out)
}

/// MXFP4 codes and scale codes as blocks: a scale byte, then sixteen bytes of codes in split halves.
pub open spec fn ggml_blocks(codes: Seq<u8>, scales: Seq<u8>) -> Seq<u8> {
    Seq::new(
        17 * scales.len(),
        |p: int|
            if p % 17 == 0 {
                scales[p / 17]
            } else {
                (codes[p / 17 * 32 + (p % 17 - 1)] + 16 * codes[p / 17 * 32 + (p % 17 - 1) + 16]) as u8
            },
    )
}

/// The magnitude of an element times its scale in units of `2^-298`.
pub open spec fn product(f: Factors) -> nat {
    minifloat::f32_mag(f.elem) * minifloat::f32_mag(f.scale)
}

/// Blocks hold the codes and the scales that they are made of.
proof fn lemma_blocks_hold(codes: Seq<u8>, scales: Seq<u8>, i: int)
    requires
        codes.len() == 32 * scales.len(),
        forall|j: int| 0 <= j < codes.len() ==> #[trigger] codes[j] < 16,
        0 <= i < codes.len(),
    ensures
        ggml_code(ggml_blocks(codes, scales), i) == codes[i],
        ggml_blocks(codes, scales)[i / 32 * 17] == scales[i / 32],
{
    let k = i / 32;
    let j = i % 32;
    let at = if j < 16 {
        j
    } else {
        j - 16
    };
    let p = k * 17 + 1 + at;
    assert(p / 17 == k && p % 17 == at + 1);
    assert((k * 17) / 17 == k && (k * 17) % 17 == 0);
    let low = codes[k * 32 + at];
    let high = codes[k * 32 + at + 16];
    assert(ggml_blocks(codes, scales)[p] == (low + 16 * high) as u8);
}

/// Twice a number times half a scale is the number times the scale.
proof fn lemma_doubled_times_half(c: nat, half: nat)
    ensures
        (c * pow2(149)) * half == (c * pow2(148)) * (2 * half),
{
    lemma_pow2_unfold(149);
    let p = pow2(148);
    assert((c * (2 * p)) * half == (c * p) * (2 * half)) by (nonlinear_arith);
}

/// The two layouts of MXFP4 hold the same weights: from the same codes and scales, element for
/// element, the product of twice the element and half the scale in blocks is the product of the
/// element and the scale aside, with the same sign.
pub proof fn law_mxfp4_layouts_agree(
    codes: Seq<u8>,
    scales: Seq<u8>,
    i: int,
    f: Factors,
    g: Factors,
)
    requires
        codes.len() == 32 * scales.len(),
        forall|j: int| 0 <= j < codes.len() ==> #[trigger] codes[j] < 16,
        forall|k: int| 0 <= k < scales.len() ==> #[trigger] scales[k] < 0xff,
        0 <= i < codes.len(),
        mxfp4_ggml_factors(ggml_blocks(codes, scales), i, f),
        mxfp4_ocp_factors(packed_fp4(codes, 32, NibbleOrder::Adjacent), scales, i, g),
    ensures
        blockfloat::e2m1_decodes(codes[i], g.elem),
        blockfloat::e8m0_decodes(scales[i / 32], g.scale),
        minifloat::f32_neg(f.elem) == minifloat::f32_neg(g.elem),
        minifloat::f32_neg(f.scale) == minifloat::f32_neg(g.scale),
        product(f) == product(g),
        f.global == F32_ONE,
        g.global == F32_ONE,
{
    lemma_blocks_hold(codes, scales, i);
    law_unpacking_undoes_packing(codes, 32, NibbleOrder::Adjacent, i);
    blockfloat::law_e8m0_half_is_half(scales[i / 32]);
    lemma_doubled_times_half(
        minifloat::mini((codes[i] % 8) as nat, 1),
        blockfloat::e8m0_half_mag(scales[i / 32]),
    );
    assert(scales[i / 32] < 0xff);
}

/// In self-contained NVFP4 blocks the product of twice the element and half the scale is the
/// product of the E2M1 element and the E4M3 scale, with the same sign.
pub proof fn law_nvfp4_product(bytes: Seq<u8>, i: int, f: Factors, elem: u32, scale: u32)
    requires
        nvfp4_scale(bytes, i) < 0x7f,
        nvfp4_ggml_factors(bytes, i, f),
        blockfloat::e2m1_decodes(nvfp4_code(bytes, i), elem),
        blockfloat::e4m3_decodes(nvfp4_scale(bytes, i), scale),
    ensures
        product(f) == minifloat::f32_mag(elem) * minifloat::f32_mag(scale),
        minifloat::f32_neg(f.elem) == minifloat::f32_neg(elem),
        minifloat::f32_neg(f.scale) == minifloat::f32_neg(scale),
{
    blockfloat::law_ue4m3_is_half(nvfp4_scale(bytes, i), f.scale, scale);
    lemma_doubled_times_half(
        minifloat::mini((nvfp4_code(bytes, i) % 8) as nat, 1),
        minifloat::f32_mag(f.scale),
    );
}

/// Element `i` of NVFP4 with E4M3 scales aside and a scale for the whole tensor. A block whose
/// scale is no number counts as zero.
pub open spec fn nvfp4_factors(
    data: Seq<u8>,
    scales: Seq<u8>,
    global: u32,
    i: int,
    f: Factors,
) -> bool {
    let s = scales[i / 16];
    &&& blockfloat::e2m1_decodes(fp4_code(data, i, 16, NibbleOrder::Adjacent), f.elem)
    &&& if s % 128 == 127 {
        f.scale == 0 && f.global == F32_ONE
    } else {
        blockfloat::e4m3_decodes(s, f.scale) && f.global == global
    }
}

/// The factors of `n` NVFP4 elements whose scales are aside.
pub fn dequant_nvfp4(data: &[u8], block_scales: &[u8], global_scale: u32, n: usize) -> (r: Result<
    Vec<Factors>,
    BlockFloatError,
>)
    ensures
        match sidecar_error(data@.len(), block_scales@.len(), n as nat, 16, 8) {
            Some(e) => r == Err::<Vec<Factors>, _>(e),
            None => r matches Ok(v) && v@.len() == n && forall|i: int|
                0 <= i < n ==> nvfp4_factors(
                    data@,
                    block_scales@,
                    global_scale,
                    i,
                    #[trigger] v@[i],
                ),
        },
{
    if n % 16 != 0 {
        return Err(BlockFloatError::NotWholeBlocks { n, block: 16 });
    }
    if data.len() < n / 2 {
        return Err(BlockFloatError::DataTooShort { have: data.len(), need: n / 2 });
    }
    if block_scales.len() < n / 16 {
        return Err(BlockFloatError::ScalesTooShort { have: block_scales.len(), need: n / 16 });
    }
    let codes = unpack_fp4(data, n, 16, NibbleOrder::Adjacent);
    let mut out: Vec<Factors> = Vec::new();
    let mut i: usize = 0;
    while i < n
        invariant
            i <= n,
            n % 16 == 0,
            n / 16 <= block_scales@.len(),
            codes@.len() == n,
            forall|k: int|
                0 <= k < n ==> #[trigger] codes@[k] == fp4_code(
                    data@,
                    k,
                    16,
                    NibbleOrder::Adjacent,
                ),
            out@.len() == i,
            forall|k: int|
                0 <= k < i ==> nvfp4_factors(
                    data@,
                    block_scales@,
                    global_scale,
                    k,
                    #[trigger] out@[k],
                ),
        decreases n - i,
    {
        let s: u8 = block_scales[i / 16];
        let elem: u32 = e2m1_to_f32(codes[i]);
        if s % 128 == 127 {
            out.push(Factors { elem, scale: 0, global: F32_ONE });
        } else {
            out.push(Factors { elem, scale: e4m3_to_f32(s), global: global_scale });
        }
        i = i + 1;
    }
    Ok(out)
}

/// Element `i` of MXFP8: an E4M3 code and an E8M0 scale aside.
pub open spec fn mxfp8_factors(data: Seq<u8>, scales: Seq<u8>, i: int, f: Factors) -> bool {
    &&& blockfloat::e4m3_decodes(data[i], f.elem)
    &&& e8m0_or_zero(scales[i / 32], f.scale)
    &&& f.global == F32_ONE
}

/// The factors of `n` MXFP8 elements.
pub fn dequant_mxfp8(data: &[u8], scales: &[u8], n: usize) -> (r: Result<
    Vec<Factors>,
    BlockFloatError,
>)
    ensures
        match sidecar_error(data@.len(), scales@.len(), n as nat, 32, 32) {
            Some(e) => r == Err::<Vec<Factors>, _>(e),
            None => r matches Ok(v) && v@.len() == n && forall|i: int|
                0 <= i < n ==> mxfp8_factors(data@, scales@, i, #[trigger] v@[i]),
        },
{
    if n % 32 != 0 {
        return Err(BlockFloatError::NotWholeBlocks { n, block: 32 });
    }
    if data.len() < n {
        return Err(BlockFloatError::DataTooShort { have: data.len(), need: n });
    }
    if scales.len() < n / 32 {
        return Err(BlockFloatError::ScalesTooShort { have: scales.len(), need: n / 32 });
    }
    let mut out: Vec<Factors> = Vec::new();
    let mut i: usize = 0;
    while i < n
        invariant
            i <= n <= data@.len(),
            n % 32 == 0,
            n / 32 <= scales@.len(),
            out@.len() == i,
            forall|k: int| 0 <= k < i ==> mxfp8_factors(data@, scales@, k, #[trigger] out@[k]),
        decreases n - i,
    {
        out.push(
            Factors {
                elem: e4m3_to_f32(data[i]),
                scale: mx_scale(scales[i / 32]),
                global: F32_ONE,
            },
        );
        i = i + 1;
    }
    Ok(out)
}

/// Element `i` of a dense eight-bit tensor of `cols` columns.
pub open spec fn fp8_factors(
    ggml_type: u32,
    data: Seq<u8>,
    cols: nat,
    scale: Fp8Scale<'_>,
    i: int,
    f: Factors,
) -> bool {
    &&& if ggml_type == RQ_TYPE_FP8_E4M3 {
        blockfloat::e4m3_decodes(data[i], f.elem)
    } else {
        blockfloat::e5m2_decodes(data[i], f.elem)
    }
    &&& f.scale == scale.scale_at((i / cols as int) as nat, (i % cols as int) as nat, cols)
    &&& f.global == F32_ONE
}

/// The scales of a dense eight-bit tensor are looked at: it is of such a type, and its elements are
/// there and not none.
pub open spec fn scales_are_read(ggml_type: u32, data: nat, rows: nat, cols: nat) -> bool {
    &&& ggml_type == RQ_TYPE_FP8_E4M3 || ggml_type == RQ_TYPE_FP8_E5M2
    &&& 0 < rows * cols <= data
}

/// The factors of a dense eight-bit tensor.
pub fn dequant_fp8(
    ggml_type: u32,
    data: &[u8],
    rows: usize,
    cols: usize,
    scale: Fp8Scale<'_>,
) -> (r: Result<Vec<Factors>, BlockFloatError>)
    requires
        rows * cols <= usize::MAX,
        scales_are_read(ggml_type, data@.len(), rows as nat, cols as nat) ==> scale.wf(),
    ensures
        data@.len() < rows * cols ==> r == Err::<Vec<Factors>, _>(
            (BlockFloatError::DataTooShort {
                have: data@.len() as usize,
                need: (rows * cols) as usize,
            }),
        ),
        data@.len() >= rows * cols && ggml_type != RQ_TYPE_FP8_E4M3 && ggml_type
            != RQ_TYPE_FP8_E5M2 ==> r == Err::<Vec<Factors>, _>(
            BlockFloatError::NotDenseFp8(ggml_type),
        ),
        data@.len() >= rows * cols && (ggml_type == RQ_TYPE_FP8_E4M3 || ggml_type
            == RQ_TYPE_FP8_E5M2) ==> (r matches Ok(v) && v@.len() == rows * cols && forall|i: int|
            0 <= i < v@.len() ==> fp8_factors(
                ggml_type,
                data@,
                cols as nat,
                scale,
                i,
                #[trigger] v@[i],
            )),
{
    let n: usize = rows * cols;
    if data.len() < n {
        return Err(BlockFloatError::DataTooShort { have: data.len(), need: n });
    }
    if ggml_type != RQ_TYPE_FP8_E4M3 && ggml_type != RQ_TYPE_FP8_E5M2 {
        return Err(BlockFloatError::NotDenseFp8(ggml_type));
    }
    let mut out: Vec<Factors> = Vec::new();
    let mut i: usize = 0;
    while i < n
        invariant
            i <= n <= data@.len(),
            n == rows * cols,
            rows * cols <= usize::MAX,
            n > 0 ==> scale.wf(),
            ggml_type == RQ_TYPE_FP8_E4M3 || ggml_type == RQ_TYPE_FP8_E5M2,
            out@.len() == i,
            forall|k: int|
                0 <= k < i ==> fp8_factors(
                    ggml_type,
                    data@,
                    cols as nat,
                    scale,
                    k,
                    #[trigger] out@[k],
                ),
        decreases n - i,
    {
        let elem: u32 = if ggml_type == RQ_TYPE_FP8_E4M3 {
            e4m3_to_f32(data[i])
        } else {
            e5m2_to_f32(data[i])
        };
        assert(cols > 0) by (nonlinear_arith)
            requires
                rows * cols > 0,
                rows >= 0,
                cols >= 0,
        ;
        let row: usize = i / cols;
        let col: usize = i % cols;
        assert((row + 1) * cols <= rows * cols) by {
            vstd::arithmetic::div_mod::lemma_fundamental_div_mod(i as int, cols as int);
            assert(row < rows) by (nonlinear_arith)
                requires
                    i as int == cols as int * row as int + col as int,
                    i < rows * cols,
                    col >= 0,
                    cols > 0,
            ;
            assert((row + 1) * cols <= rows * cols) by (nonlinear_arith)
                requires
                    row < rows,
                    cols > 0,
            ;
        }
        proof {
            lemma_has_place(scale, row as nat, col as nat, cols as nat);
        }
        out.push(Factors { elem, scale: scale.at(row, col, cols), global: F32_ONE });
        i = i + 1;
    }
    Ok(out)
}

/// Why a tensor of this type with these scales cannot be taken apart.
pub open spec fn blockfloat_error(
    ggml_type: u32,
    data: nat,
    rows: nat,
    cols: nat,
    scales: ScaleSource<'_>,
) -> Option<BlockFloatError> {
    let n = rows * cols;
    match scales {
        ScaleSource::Interleaved => if ggml_type == GGML_TYPE_MXFP4 {
            if cols % 32 != 0 {
                Some(BlockFloatError::NotWholeBlocks { n: cols as usize, block: 32 })
            } else if data < n / 32 * 17 {
                Some(
                    BlockFloatError::DataTooShort {
                        have: data as usize,
                        need: (n / 32 * 17) as usize,
                    },
                )
            } else {
                None
            }
        } else if ggml_type == GGML_TYPE_NVFP4 {
            if cols % 64 != 0 {
                Some(BlockFloatError::NotWholeBlocks { n: cols as usize, block: 64 })
            } else if data < n / 64 * 36 {
                Some(
                    BlockFloatError::DataTooShort {
                        have: data as usize,
                        need: (n / 64 * 36) as usize,
                    },
                )
            } else {
                None
            }
        } else {
            Some(BlockFloatError::NotBlockFloat(ggml_type))
        },
        ScaleSource::Sidecar { scales, .. } => if ggml_type == RQ_TYPE_MXFP4_OCP {
            sidecar_error(data, scales@.len(), n, 32, 16)
        } else if ggml_type == RQ_TYPE_NVFP4 {
            sidecar_error(data, scales@.len(), n, 16, 8)
        } else if ggml_type == RQ_TYPE_MXFP8_E4M3 {
            sidecar_error(data, scales@.len(), n, 32, 32)
        } else {
            Some(BlockFloatError::NotBlockFloat(ggml_type))
        },
        ScaleSource::Float(_) => if ggml_type == RQ_TYPE_FP8_E4M3 || ggml_type
            == RQ_TYPE_FP8_E5M2 {
            if data < n {
                Some(BlockFloatError::DataTooShort { have: data as usize, need: n as usize })
            } else {
                None
            }
        } else {
            Some(BlockFloatError::NotBlockFloat(ggml_type))
        },
    }
}

/// Element `i` of a tensor of this type with these scales.
pub open spec fn blockfloat_factors(
    ggml_type: u32,
    data: Seq<u8>,
    cols: nat,
    scales: ScaleSource<'_>,
    i: int,
    f: Factors,
) -> bool {
    match scales {
        ScaleSource::Interleaved => if ggml_type == GGML_TYPE_MXFP4 {
            mxfp4_ggml_factors(data, i, f)
        } else {
            nvfp4_ggml_factors(data, i, f)
        },
        ScaleSource::Sidecar { scales, global } => if ggml_type == RQ_TYPE_MXFP4_OCP {
            mxfp4_ocp_factors(data, scales@, i, f)
        } else if ggml_type == RQ_TYPE_NVFP4 {
            nvfp4_factors(data, scales@, global, i, f)
        } else {
            mxfp8_factors(data, scales@, i, f)
        },
        ScaleSource::Float(s) => fp8_factors(ggml_type, data, cols, s, i, f),
    }
}

/// Rows of whole blocks make a tensor of whole blocks.
proof fn lemma_rows_whole(rows: int, cols: int, block: int)
    requires
        block > 0,
        cols % block == 0,
    ensures
        (rows * cols) % block == 0,
{
    let k = cols / block;
    vstd::arithmetic::div_mod::lemma_fundamental_div_mod(cols, block);
    assert(rows * cols == (rows * k) * block) by (nonlinear_arith)
        requires
            cols == block * k,
    ;
    vstd::arithmetic::div_mod::lemma_mod_multiples_basic(rows * k, block);
}

/// The factors of any block-float tensor, row by row.
pub fn dequantize_blockfloat(
    ggml_type: u32,
    data: &[u8],
    rows: usize,
    cols: usize,
    scales: ScaleSource<'_>,
) -> (r: Result<Vec<Factors>, BlockFloatError>)
    requires
        rows * cols <= usize::MAX,
        scales matches ScaleSource::Float(s) ==> scales_are_read(
            ggml_type,
            data@.len(),
            rows as nat,
            cols as nat,
        ) ==> s.wf(),
    ensures
        match blockfloat_error(ggml_type, data@.len(), rows as nat, cols as nat, scales) {
            Some(e) => r == Err::<Vec<Factors>, _>(e),
            None => r matches Ok(v) && v@.len() == rows * cols && forall|i: int|
                0 <= i < v@.len() ==> blockfloat_factors(
                    ggml_type,
                    data@,
                    cols as nat,
                    scales,
                    i,
                    #[trigger] v@[i],
                ),
        },
{
    let n: usize = rows * cols;
    match scales {
        ScaleSource::Interleaved => {
            if ggml_type == GGML_TYPE_MXFP4 {
                if cols % 32 != 0 {
                    return Err(BlockFloatError::NotWholeBlocks { n: cols, block: 32 });
                }
                proof {
                    lemma_rows_whole(rows as int, cols as int, 32);
                }
                let need: usize = n / 32 * 17;
                if data.len() < need {
                    return Err(BlockFloatError::DataTooShort { have: data.len(), need });
                }
                return Ok(dequant_mxfp4_ggml_row(data, n));
            }
            if ggml_type == GGML_TYPE_NVFP4 {
                if cols % 64 != 0 {
                    return Err(BlockFloatError::NotWholeBlocks { n: cols, block: 64 });
                }
                proof {
                    lemma_rows_whole(rows as int, cols as int, 64);
                }
                let need: usize = n / 64 * 36;
                if data.len() < need {
                    return Err(BlockFloatError::DataTooShort { have: data.len(), need });
                }
                return Ok(dequant_nvfp4_ggml_row(data, n));
            }
            Err(BlockFloatError::NotBlockFloat(ggml_type))
        },
        ScaleSource::Sidecar { scales, global } => if ggml_type == RQ_TYPE_MXFP4_OCP {
            dequant_mxfp4_ocp(data, scales, n)
        } else if ggml_type == RQ_TYPE_NVFP4 {
            dequant_nvfp4(data, scales, global, n)
        } else if ggml_type == RQ_TYPE_MXFP8_E4M3 {
            dequant_mxfp8(data, scales, n)
        } else {
            Err(BlockFloatError::NotBlockFloat(ggml_type))
        },
        ScaleSource::Float(s) => if ggml_type == RQ_TYPE_FP8_E4M3 || ggml_type
            == RQ_TYPE_FP8_E5M2 {
            dequant_fp8(ggml_type, data, rows, cols, s)
        } else {
            Err(BlockFloatError::NotBlockFloat(ggml_type))
        },
    }
}

} // verus!
