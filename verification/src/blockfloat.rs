//! Block-scaled floats: FP4 (E2M1), FP8 (E4M3, E5M2) and the layouts built on them.
use vstd::arithmetic::power2::*;
use vstd::prelude::*;
use crate::minifloat;
use crate::minifloat::{narrow, pack_f32, widen, F32_INF, F32_NAN, F32_SIGN};

pub mod dequant;
pub mod laws;

verus! {

/// The type number of MXFP4 blocks: 32 elements in 17 bytes.
pub const GGML_TYPE_MXFP4: u32 = 39;

/// The type number of self-contained NVFP4 blocks: 64 elements in 36 bytes.
pub const GGML_TYPE_NVFP4: u32 = 40;

/// The first number for types that no GGUF header may name.
pub const RQ_TYPE_BASE: u32 = 0x8000;

/// NVFP4 with its scales in other tensors.
pub const RQ_TYPE_NVFP4: u32 = 0x8000;

/// Dense FP8 E4M3, its scale elsewhere.
pub const RQ_TYPE_FP8_E4M3: u32 = 0x8001;

/// Dense FP8 E5M2, its scale elsewhere.
pub const RQ_TYPE_FP8_E5M2: u32 = 0x8002;

/// E4M3 elements in blocks of 32 with E8M0 scales in another buffer.
pub const RQ_TYPE_MXFP8_E4M3: u32 = 0x8003;

/// MXFP4 with adjacent nibbles and E8M0 scales in another buffer.
pub const RQ_TYPE_MXFP4_OCP: u32 = 0x8004;

/// Whether a GGUF header may name the type.
pub fn is_gguf_type(ty: u32) -> (r: bool)
    ensures
        r == (ty < RQ_TYPE_BASE),
{
    ty < RQ_TYPE_BASE
}

/// The types with four-bit elements.
pub open spec fn fp4_family(ty: u32) -> bool {
    ty == GGML_TYPE_MXFP4 || ty == GGML_TYPE_NVFP4 || ty == RQ_TYPE_NVFP4 || ty == RQ_TYPE_MXFP4_OCP
}

/// The types with eight-bit elements.
pub open spec fn fp8_family(ty: u32) -> bool {
    ty == RQ_TYPE_FP8_E4M3 || ty == RQ_TYPE_FP8_E5M2 || ty == RQ_TYPE_MXFP8_E4M3
}

/// Whether the elements have four bits.
pub fn is_fp4_family(ty: u32) -> (r: bool)
    ensures
        r == fp4_family(ty),
{
    ty == GGML_TYPE_MXFP4 || ty == GGML_TYPE_NVFP4 || ty == RQ_TYPE_NVFP4 || ty == RQ_TYPE_MXFP4_OCP
}

/// Whether the elements have eight bits.
pub fn is_fp8_family(ty: u32) -> (r: bool)
    ensures
        r == fp8_family(ty),
{
    ty == RQ_TYPE_FP8_E4M3 || ty == RQ_TYPE_FP8_E5M2 || ty == RQ_TYPE_MXFP8_E4M3
}

/// No type belongs to both families, and dense FP8 never stands in a GGUF header.
pub proof fn law_families_are_apart(ty: u32)
    ensures
        !(fp4_family(ty) && fp8_family(ty)),
        fp8_family(ty) ==> ty >= RQ_TYPE_BASE,
{
}

/// Which half of a byte holds which four-bit code.
#[derive(Debug, Clone, Copy, PartialEq, Eq, Structural)]
pub enum NibbleOrder {
    /// Byte `j` holds the codes `2j` (low half) and `2j + 1`.
    Adjacent,
    /// Byte `j` of a block holds the codes `j` (low half) and `j + block / 2`.
    SplitHalf,
}

/// Where a value goes that lies halfway between two four-bit values.
#[derive(Debug, Clone, Copy, PartialEq, Eq, Structural)]
pub enum E2m1Rounding {
    /// To the smaller magnitude.
    HalfDown,
    /// To the even code.
    NearestEven,
}

impl Default for E2m1Rounding {
    fn default() -> (r: E2m1Rounding)
        ensures
            r == E2m1Rounding::HalfDown,
    {
        E2m1Rounding::HalfDown
    }
}

/// The single-precision bits of the number one.
pub const F32_ONE: u32 = 0x3f80_0000;

/// The greatest exponent of a normal E2M1 value.
pub const E2M1_EMAX: i32 = 2;

/// The greatest exponent of a normal E4M3 value.
pub const E4M3_EMAX: i32 = 8;

/// The bits of the greatest E2M1 magnitude, 6.
pub const E2M1_MAX: u32 = 0x40c0_0000;

/// The bits of the greatest finite E4M3 magnitude, 448.
pub const E4M3_MAX: u32 = 0x43e0_0000;

/// The bits of the greatest finite E5M2 magnitude, 57344.
pub const E5M2_MAX: u32 = 0x4760_0000;

/// `r` is the finite single-precision pattern with this sign and this magnitude in units of
/// `2^-149`.
pub open spec fn is_f32(r: u32, neg: bool, mag: nat) -> bool {
    &&& minifloat::f32_abs(r) < F32_INF
    &&& minifloat::f32_neg(r) == neg
    &&& minifloat::f32_mag(r) == mag
}

/// A sign and a magnitude have one pattern, so that a contract over them fixes the bits.
pub proof fn law_value_has_one_pattern(a: u32, b: u32, neg: bool, mag: nat)
    requires
        is_f32(a, neg, mag),
        is_f32(b, neg, mag),
    ensures
        a == b,
{
    let x = minifloat::f32_abs(a) as nat;
    let y = minifloat::f32_abs(b) as nat;
    if x < y {
        minifloat::lemma_mini_increases(x, y, 23);
    } else if y < x {
        minifloat::lemma_mini_increases(y, x, 23);
    }
}

/// `bits`, which have no sign, with a sign.
fn signed(bits: u32, neg: bool) -> (r: u32)
    requires
        bits < F32_INF,
    ensures
        is_f32(r, neg, minifloat::mini(bits as nat, 23)),
{
    if neg {
        bits + F32_SIGN
    } else {
        bits
    }
}

/// The bits without their sign.
fn abs_bits(v: u32) -> (r: u32)
    ensures
        r == minifloat::f32_abs(v),
{
    if v >= F32_SIGN {
        v - F32_SIGN
    } else {
        v
    }
}

/// The bits of `2^n`: infinity above the range, zero below it.
pub fn exp2i(n: i32) -> (r: u32)
    ensures
        n > 127 ==> r == F32_INF,
        -149 <= n <= 127 ==> is_f32(r, false, pow2((n + 149) as nat)),
        n < -149 ==> r == 0,
{
    if n > 127 {
        return F32_INF;
    }
    if n < -149 {
        return 0;
    }
    let k: u32 = (n + 149) as u32;
    proof {
        lemma2_to64();
        assert(1 * pow2(k as nat) == pow2(k as nat));
    }
    if k >= 253 {
        // The exponent field alone holds these two powers.
        proof {
            lemma_pow2_adds(23, (k - 23) as nat);
        }
        return (k - 22) * 0x80_0000;
    }
    pack_f32(1, k)
}

/// `r` is the value of the E2M1 code: sign in bit three, two exponent bits, one mantissa bit.
pub open spec fn e2m1_decodes(code: u8, r: u32) -> bool {
    is_f32(r, (code / 8) % 2 == 1, minifloat::scaled((code % 8) as nat, 1, 148))
}

/// The value of an E2M1 code; only its low four bits count.
pub fn e2m1_to_f32(code: u8) -> (r: u32)
    ensures
        e2m1_decodes(code, r),
{
    proof {
        lemma2_to64();
    }
    signed(widen((code % 8) as u32, 1, 148), (code / 8) % 2 == 1)
}

/// Of the patterns up to `max`, `c` is the nearest to `x`, and the smallest of the nearest.
pub open spec fn nearest_down(x: nat, c: nat, mb: nat, shift: nat, max: nat) -> bool {
    &&& c <= max
    &&& forall|o: nat|
        o <= max ==> minifloat::apart(x, minifloat::scaled(c, mb, shift)) <= minifloat::apart(
            x,
            #[trigger] minifloat::scaled(o, mb, shift),
        )
    &&& forall|o: nat|
        o <= max && o != c && minifloat::apart(x, minifloat::scaled(c, mb, shift))
            == minifloat::apart(x, #[trigger] minifloat::scaled(o, mb, shift)) ==> c < o
}

/// `r` is the E2M1 code for the value `v`: its sign, and the code of the nearest magnitude. What
/// is no finite number gets the greatest magnitude.
pub open spec fn e2m1_encodes(v: u32, rounding: E2m1Rounding, r: u8) -> bool {
    let x = minifloat::f32_mag(v);
    let c = (r % 8) as nat;
    &&& r < 16
    &&& (r / 8 == 1) == minifloat::f32_neg(v)
    &&& minifloat::f32_abs(v) >= F32_INF ==> c == 7
    &&& minifloat::f32_abs(v) < F32_INF ==> match rounding {
        E2m1Rounding::HalfDown => nearest_down(x, c, 1, 148, 7),
        E2m1Rounding::NearestEven => minifloat::nearest_even(x, c, 1, 148, 7),
    }
}

/// The eight E2M1 magnitudes in halves.
proof fn lemma_e2m1_values()
    ensures
        minifloat::mini(0, 1) == 0,
        minifloat::mini(1, 1) == 1,
        minifloat::mini(2, 1) == 2,
        minifloat::mini(3, 1) == 3,
        minifloat::mini(4, 1) == 4,
        minifloat::mini(5, 1) == 6,
        minifloat::mini(6, 1) == 8,
        minifloat::mini(7, 1) == 12,
{
    lemma2_to64();
    assert(pow2(1) == 2 && pow2(2) == 4 && pow2(0) == 1);
    minifloat::lemma_mini_value(2, 1, 1, 0);
    minifloat::lemma_mini_value(3, 1, 1, 1);
    minifloat::lemma_mini_value(4, 1, 2, 0);
    minifloat::lemma_mini_value(5, 1, 2, 1);
    minifloat::lemma_mini_value(6, 1, 3, 0);
    minifloat::lemma_mini_value(7, 1, 3, 1);
}

/// The magnitude of a single-precision pattern with the exponent `124 + up` and only the two
/// leading bits of its mantissa.
proof fn lemma_quarters(b: nat, top: nat, up: nat, v: nat)
    requires
        b == (124 + up) * 0x80_0000 + top * 0x20_0000,
        top < 4,
        v == (4 + top) * pow2(up),
    ensures
        minifloat::mini(b, 23) == v * pow2(144),
{
    lemma2_to64();
    minifloat::lemma_mini_value(b, 23, (124 + up) as nat, (top * 0x20_0000) as nat);
    lemma_pow2_adds(21, (up + 123) as nat);
    lemma_pow2_adds(up, 144);
    let x = (4 + top) as nat;
    let y = pow2((up + 123) as nat);
    assert((top * 0x20_0000 + 0x80_0000) * y == x * (0x20_0000 * y)) by (nonlinear_arith)
        requires
            x == 4 + top,
    ;
    let u = pow2(up);
    let w = pow2(144);
    assert(x * (u * w) == x * u * w) by (nonlinear_arith);
}

/// The code of the nearest E2M1 magnitude, ties to the smaller one.
fn e2m1_half_down(a: u32) -> (r: u8)
    requires
        a < F32_INF,
    ensures
        nearest_down(minifloat::mini(a as nat, 23), r as nat, 1, 148, 7),
{
    let r: u8 = if a <= 0x3e80_0000 {
        0
    } else if a <= 0x3f40_0000 {
        1
    } else if a <= 0x3fa0_0000 {
        2
    } else if a <= 0x3fe0_0000 {
        3
    } else if a <= 0x4020_0000 {
        4
    } else if a <= 0x4060_0000 {
        5
    } else if a <= 0x40a0_0000 {
        6
    } else {
        7
    };
    proof {
        lemma2_to64();
        lemma_e2m1_values();
        // The seven midpoints.
        lemma_quarters(0x3e80_0000, 0, 1, 8);
        lemma_quarters(0x3f40_0000, 2, 2, 24);
        lemma_quarters(0x3fa0_0000, 1, 3, 40);
        lemma_quarters(0x3fe0_0000, 3, 3, 56);
        lemma_quarters(0x4020_0000, 1, 4, 80);
        lemma_quarters(0x4060_0000, 3, 4, 112);
        lemma_quarters(0x40a0_0000, 1, 5, 160);
        lemma_pow2_adds(4, 144);
        let t = pow2(144);
        let x = minifloat::mini(a as nat, 23);
        assert forall|k: nat| k < a implies #[trigger] minifloat::mini(k, 23) < x by {
            minifloat::lemma_mini_increases(k, a as nat, 23);
        }
        assert forall|k: nat| k > a implies #[trigger] minifloat::mini(k, 23) > x by {
            minifloat::lemma_mini_increases(a as nat, k, 23);
        }
        lemma_pow2_pos(144);
        assert(r == 0 ==> x <= 8 * t);
        assert(r == 1 ==> 8 * t < x && x <= 24 * t);
        assert(r == 2 ==> 24 * t < x && x <= 40 * t);
        assert(r == 3 ==> 40 * t < x && x <= 56 * t);
        assert(r == 4 ==> 56 * t < x && x <= 80 * t);
        assert(r == 5 ==> 80 * t < x && x <= 112 * t);
        assert(r == 6 ==> 112 * t < x && x <= 160 * t);
        assert(r == 7 ==> 160 * t < x);
        assert(minifloat::scaled(0, 1, 148) == 0 * t);
        assert(minifloat::scaled(1, 1, 148) == 16 * t);
        assert(minifloat::scaled(2, 1, 148) == 32 * t);
        assert(minifloat::scaled(3, 1, 148) == 48 * t);
        assert(minifloat::scaled(4, 1, 148) == 64 * t);
        assert(minifloat::scaled(5, 1, 148) == 96 * t);
        assert(minifloat::scaled(6, 1, 148) == 128 * t);
        assert(minifloat::scaled(7, 1, 148) == 192 * t);
        assert forall|o: nat| o <= 7 implies {
            &&& minifloat::apart(x, minifloat::scaled(r as nat, 1, 148)) <= minifloat::apart(
                x,
                #[trigger] minifloat::scaled(o, 1, 148),
            )
            &&& (o != r && minifloat::apart(x, minifloat::scaled(r as nat, 1, 148))
                == minifloat::apart(x, minifloat::scaled(o, 1, 148)) ==> r < o)
        } by {
            assert(o == 0 || o == 1 || o == 2 || o == 3 || o == 4 || o == 5 || o == 6 || o == 7);
            assert(r == 0 || r == 1 || r == 2 || r == 3 || r == 4 || r == 5 || r == 6 || r == 7);
        }
    }
    r
}

/// The E2M1 code of a value, with the given rule for ties.
pub fn f32_to_e2m1_with(v: u32, rounding: E2m1Rounding) -> (r: u8)
    ensures
        e2m1_encodes(v, rounding, r),
{
    let sign: u8 = if v >= F32_SIGN {
        8
    } else {
        0
    };
    let a: u32 = abs_bits(v);
    if a >= F32_INF {
        return sign + 7;
    }
    match rounding {
        E2m1Rounding::HalfDown => sign + e2m1_half_down(a),
        E2m1Rounding::NearestEven => sign + narrow(a, 1, 148, 7) as u8,
    }
}

/// The E2M1 code of a value, ties to the smaller magnitude.
pub fn f32_to_e2m1(v: u32) -> (r: u8)
    ensures
        e2m1_encodes(v, E2m1Rounding::HalfDown, r),
{
    f32_to_e2m1_with(v, E2m1Rounding::HalfDown)
}

/// `r` is the value of the E4M3 code: four exponent bits, three mantissa bits, no infinities.
pub open spec fn e4m3_decodes(b: u8, r: u32) -> bool {
    if b % 128 == 127 {
        r == F32_NAN
    } else {
        is_f32(r, b >= 128, minifloat::scaled((b % 128) as nat, 3, 140))
    }
}

/// The value of an E4M3 code.
pub fn e4m3_to_f32(b: u8) -> (r: u32)
    ensures
        e4m3_decodes(b, r),
{
    if b % 128 == 127 {
        return F32_NAN;
    }
    proof {
        lemma2_to64();
    }
    signed(widen((b % 128) as u32, 3, 140), b >= 128)
}

/// `r` is the code of the value `v` in an eight-bit format: the sign, and the nearest finite
/// magnitude, ties to the even code. What is no number gets `0x7f`.
pub open spec fn fp8_encodes(v: u32, mb: nat, shift: nat, max: nat, r: u8) -> bool {
    let a = minifloat::f32_abs(v);
    let c = (r % 128) as nat;
    if a > F32_INF {
        r == 0x7f
    } else {
        &&& (r >= 128) == minifloat::f32_neg(v)
        &&& a == F32_INF ==> c == max
        &&& a < F32_INF ==> minifloat::nearest_even(minifloat::f32_mag(v), c, mb, shift, max)
    }
}

/// `r` is the E4M3 code of the value `v`.
pub open spec fn e4m3_encodes(v: u32, r: u8) -> bool {
    fp8_encodes(v, 3, 140, 0x7e, r)
}

/// The E4M3 code of a value; the greatest finite magnitude for everything above it.
pub fn f32_to_e4m3(v: u32) -> (r: u8)
    ensures
        e4m3_encodes(v, r),
{
    let a: u32 = abs_bits(v);
    if a > F32_INF {
        return 0x7f;
    }
    let sign: u8 = if v >= F32_SIGN {
        128
    } else {
        0
    };
    if a == F32_INF {
        return sign + 0x7e;
    }
    sign + narrow(a, 3, 140, 0x7e) as u8
}

/// `r` is the value of the E5M2 code: five exponent bits, two mantissa bits, infinities.
pub open spec fn e5m2_decodes(b: u8, r: u32) -> bool {
    if b % 128 > 124 {
        r == F32_NAN
    } else if b % 128 == 124 {
        minifloat::f32_abs(r) == F32_INF && minifloat::f32_neg(r) == (b >= 128)
    } else {
        is_f32(r, b >= 128, minifloat::scaled((b % 128) as nat, 2, 133))
    }
}

/// The value of an E5M2 code.
pub fn e5m2_to_f32(b: u8) -> (r: u32)
    ensures
        e5m2_decodes(b, r),
{
    let c: u8 = b % 128;
    if c > 124 {
        return F32_NAN;
    }
    if c == 124 {
        return if b >= 128 {
            F32_INF + F32_SIGN
        } else {
            F32_INF
        };
    }
    proof {
        lemma2_to64();
    }
    signed(widen(c as u32, 2, 133), b >= 128)
}

/// `r` is the E5M2 code of the value `v`.
pub open spec fn e5m2_encodes(v: u32, r: u8) -> bool {
    fp8_encodes(v, 2, 133, 0x7b, r)
}

/// The E5M2 code of a value; the greatest finite magnitude for everything above it.
pub fn f32_to_e5m2(v: u32) -> (r: u8)
    ensures
        e5m2_encodes(v, r),
{
    let a: u32 = abs_bits(v);
    if a > F32_INF {
        return 0x7f;
    }
    let sign: u8 = if v >= F32_SIGN {
        128
    } else {
        0
    };
    if a == F32_INF {
        return sign + 0x7b;
    }
    sign + narrow(a, 2, 133, 0x7b) as u8
}

/// `r` is half the value of the E4M3 code without its sign; zero for the code of no number.
pub open spec fn ue4m3_decodes(x: u8, r: u32) -> bool {
    if x == 0x7f {
        r == 0
    } else {
        is_f32(r, false, minifloat::scaled((x % 128) as nat, 3, 139))
    }
}

/// Half the value of an unsigned E4M3 scale.
pub fn ue4m3_to_f32(x: u8) -> (r: u32)
    ensures
        ue4m3_decodes(x, r),
{
    if x == 0x7f {
        return 0;
    }
    proof {
        lemma2_to64();
    }
    signed(widen((x % 128) as u32, 3, 139), false)
}

/// The unsigned E4M3 scale of the positive single-precision pattern `b`, at most 448: normal
/// magnitudes round halves up, and everything from 256 on becomes 448. Below the normal range the
/// scale is the magnitude in units of `2^-9`, halves rounded up, except that the step from zero to
/// one already comes `2^-34` before one half of a unit: there the sum with one half, rounded to
/// single precision, reaches one.
pub open spec fn ue4m3_code(b: nat) -> nat {
    let e = b / 0x80_0000;
    if e <= 120 {
        let x = minifloat::mini(b, 23);
        if x < pow2(139) - pow2(115) {
            0
        } else if x < 3 * pow2(139) {
            1
        } else if (x + pow2(139)) / pow2(140) <= 7 {
            (x + pow2(139)) / pow2(140)
        } else {
            7
        }
    } else {
        let k = (b / 0x8_0000 + 1) / 2 - 960;
        if k < 120 {
            k as nat
        } else {
            0x7e
        }
    }
}

/// The unsigned E4M3 scale of a value: zero for what is not above zero.
pub fn f32_to_ue4m3(v: u32) -> (r: u8)
    ensures
        v == 0 || v > F32_INF ==> r == 0,
        0 < v <= F32_INF ==> r == ue4m3_code(
            if v <= E4M3_MAX {
                v as nat
            } else {
                E4M3_MAX as nat
            },
        ),
{
    if v == 0 || v > F32_INF {
        return 0;
    }
    let b: u32 = if v <= E4M3_MAX {
        v
    } else {
        E4M3_MAX
    };
    let e: u32 = b / 0x80_0000;
    if e > 120 {
        let k: u32 = (b / 0x8_0000 + 1) / 2;
        return if k - 960 < 120 {
            (k - 960) as u8
        } else {
            0x7e
        };
    }
    proof {
        lemma2_to64();
    }
    let m: u32 = b % 0x80_0000;
    if e < 116 {
        proof {
            lemma_small_scale(b as nat);
        }
        return 0;
    }
    // Mantissa in units of 2^(e - 1); a unit of the scale has 2^(141 - e) of them.
    let sig: u32 = m + 0x80_0000;
    let unit: u32 = if e == 116 {
        0x200_0000
    } else if e == 117 {
        0x100_0000
    } else if e == 118 {
        0x80_0000
    } else if e == 119 {
        0x40_0000
    } else {
        0x20_0000
    };
    let r: u32 = if e == 116 {
        if sig < 0xff_ffff {
            0
        } else {
            1
        }
    } else {
        let q: u32 = (sig + unit / 2) / unit;
        if q <= 7 {
            q
        } else {
            7
        }
    };
    proof {
        lemma_scale_rounding(b as nat, e as nat, sig as nat, unit as nat);
    }
    r as u8
}

/// Magnitudes far below half a unit of a scale.
proof fn lemma_small_scale(b: nat)
    requires
        b / 0x80_0000 < 116,
    ensures
        minifloat::mini(b, 23) < pow2(139) - pow2(115),
{
    lemma2_to64();
    let top: nat = 116 * 0x80_0000;
    minifloat::lemma_mini_increases(b, top, 23);
    assert(top / 0x80_0000 == 116);
    assert(top % 0x80_0000 == 0);
    lemma_pow2_adds(23, 115);
    lemma_pow2_adds(1, 138);
    lemma_pow2_strictly_increases(115, 138);
    lemma_pow2_unfold(139);
}

/// The rounding of a subnormal scale, in units of its mantissa.
proof fn lemma_scale_rounding(b: nat, e: nat, sig: nat, unit: nat)
    requires
        116 <= e <= 120,
        e == b / 0x80_0000,
        sig == b % 0x80_0000 + 0x80_0000,
        unit == pow2((141 - e) as nat),
    ensures
        e == 116 ==> (minifloat::mini(b, 23) < pow2(139) - pow2(115) <==> sig < 0xff_ffff),
        e == 116 ==> minifloat::mini(b, 23) < 3 * pow2(139),
        e > 116 ==> minifloat::mini(b, 23) >= pow2(139) - pow2(115),
        e > 116 ==> (minifloat::mini(b, 23) + pow2(139)) / pow2(140) == (sig + unit / 2) / unit,
        e > 116 && minifloat::mini(b, 23) < 3 * pow2(139) ==> (sig + unit / 2) / unit == 1,
{
    lemma2_to64();
    let w = pow2((e - 1) as nat);
    let x = minifloat::mini(b, 23);
    lemma_pow2_pos((e - 1) as nat);
    assert(x == sig * w);
    lemma_pow2_adds((141 - e) as nat, (e - 1) as nat);
    assert(unit * w == pow2(140));
    lemma_pow2_unfold(140);
    lemma_pow2_unfold((141 - e) as nat);
    let h = unit / 2;
    assert(unit == 2 * h);
    assert(h * w == pow2(139)) by (nonlinear_arith)
        requires
            unit * w == 2 * pow2(139),
            unit == 2 * h,
    ;
    if e == 116 {
        assert(w == pow2(115));
        assert((sig < 0xff_ffff) ==> (sig * w < h * w - w)) by (nonlinear_arith)
            requires
                h == 0x100_0000,
                w > 0,
        ;
        assert((sig >= 0xff_ffff) ==> (sig * w >= h * w - w)) by (nonlinear_arith)
            requires
                h == 0x100_0000,
                w > 0,
        ;
        assert(sig * w < 3 * (h * w)) by (nonlinear_arith)
            requires
                sig < 0x100_0000,
                h == 0x100_0000,
                w > 0,
        ;
    } else {
        assert(sig * w >= h * w) by (nonlinear_arith)
            requires
                sig >= h,
                w > 0,
        ;
        let n = sig + h;
        assert(n * w == sig * w + h * w) by (nonlinear_arith)
            requires
                n == sig + h,
        ;
        vstd::arithmetic::div_mod::lemma_div_denominator(
            (n * w) as int,
            w as int,
            unit as int,
        );
        vstd::arithmetic::div_mod::lemma_div_multiples_vanish(n as int, w as int);
        assert(w * n == n * w && w * unit == unit * w) by (nonlinear_arith);
        assert((n * w) / (w * unit) == n / unit);
        if x < 3 * pow2(139) {
            assert(sig < 3 * h) by (nonlinear_arith)
                requires
                    sig * w < 3 * (h * w),
                    w > 0,
            ;
            vstd::arithmetic::div_mod::lemma_fundamental_div_mod_converse(
                n as int,
                unit as int,
                1,
                n - unit,
            );
        }
    }
}

/// `r` is `2^(e - 127)`; no number for the greatest code.
pub open spec fn e8m0_decodes(e: u8, r: u32) -> bool {
    if e == 0xff {
        r == F32_NAN
    } else {
        is_f32(r, false, e8m0_mag(e))
    }
}

/// The magnitude of an E8M0 scale in units of `2^-149`.
pub open spec fn e8m0_mag(e: u8) -> nat {
    pow2((e + 22) as nat)
}

/// The magnitude of a halved E8M0 scale in units of `2^-149`.
pub open spec fn e8m0_half_mag(e: u8) -> nat {
    pow2((e + 21) as nat)
}

/// The value of an E8M0 scale.
pub fn e8m0_to_f32(e: u8) -> (r: u32)
    ensures
        e8m0_decodes(e, r),
{
    if e == 0xff {
        return F32_NAN;
    }
    exp2i(e as i32 - 127)
}

/// Half the value of an E8M0 scale; here every code is a number.
pub fn e8m0_to_f32_half(e: u8) -> (r: u32)
    ensures
        is_f32(r, false, e8m0_half_mag(e)),
{
    exp2i(e as i32 - 128)
}

/// The halved scale is exactly half the scale.
pub proof fn law_e8m0_half_is_half(e: u8)
    ensures
        2 * e8m0_half_mag(e) == e8m0_mag(e),
{
    lemma_pow2_unfold((e + 22) as nat);
}

/// The E8M0 scale of a value: its exponent. Zero for what is not above zero or not finite.
pub fn f32_to_e8m0(v: u32) -> (r: u8)
    ensures
        r == if v < F32_INF {
            v / 0x80_0000
        } else {
            0
        },
{
    if v < F32_INF {
        (v / 0x80_0000) as u8
    } else {
        0
    }
}

/// The E8M0 scale of a normal value is the greatest power of two that is not above it.
pub proof fn law_e8m0_truncates(v: u32)
    requires
        0x80_0000 <= v < F32_INF,
    ensures
        e8m0_mag((v / 0x80_0000) as u8) <= minifloat::f32_mag(v),
        minifloat::f32_mag(v) < 2 * e8m0_mag((v / 0x80_0000) as u8),
{
    lemma2_to64();
    let e = v as nat / 0x80_0000;
    let m = v as nat % 0x80_0000;
    let w = pow2((e - 1) as nat);
    lemma_pow2_adds(23, (e - 1) as nat);
    lemma_pow2_pos((e - 1) as nat);
    assert(0x80_0000 * w <= (m + 0x80_0000) * w && (m + 0x80_0000) * w < 2 * (0x80_0000 * w))
        by (nonlinear_arith)
        requires
            m < 0x80_0000,
            w > 0,
    ;
}

/// An unsigned E4M3 scale is exactly half the value of its code.
pub proof fn law_ue4m3_is_half(x: u8, half: u32, whole: u32)
    requires
        x < 0x7f,
        ue4m3_decodes(x, half),
        e4m3_decodes(x, whole),
    ensures
        2 * minifloat::f32_mag(half) == minifloat::f32_mag(whole),
        minifloat::f32_neg(half) == minifloat::f32_neg(whole),
{
    lemma_pow2_unfold(140);
    let m = minifloat::mini(x as nat, 3);
    let p = pow2(139);
    assert(2 * (m * p) == m * (2 * p)) by (nonlinear_arith);
}

/// Every E2M1 code is the code of its value, under both rules for ties.
pub proof fn law_e2m1_roundtrip(code: u8, bits: u32, rounding: E2m1Rounding, back: u8)
    requires
        code < 16,
        e2m1_decodes(code, bits),
        e2m1_encodes(bits, rounding, back),
    ensures
        back == code,
{
    let c = (code % 8) as nat;
    let d = (back % 8) as nat;
    let x = minifloat::scaled(c, 1, 148);
    assert(minifloat::apart(x, minifloat::scaled(c, 1, 148)) == 0);
    if d < c {
        minifloat::lemma_scaled_increases(d, c, 1, 148);
    } else if c < d {
        minifloat::lemma_scaled_increases(c, d, 1, 148);
    }
}

/// Every finite E4M3 code is the code of its value.
pub proof fn law_e4m3_roundtrip(b: u8, bits: u32, back: u8)
    requires
        b % 128 != 127,
        e4m3_decodes(b, bits),
        e4m3_encodes(bits, back),
    ensures
        back == b,
{
    minifloat::lemma_nearest_is_exact((b % 128) as nat, (back % 128) as nat, 3, 140, 0x7e);
}

/// Every finite E5M2 code is the code of its value.
pub proof fn law_e5m2_roundtrip(b: u8, bits: u32, back: u8)
    requires
        b % 128 < 124,
        e5m2_decodes(b, bits),
        e5m2_encodes(bits, back),
    ensures
        back == b,
{
    minifloat::lemma_nearest_is_exact((b % 128) as nat, (back % 128) as nat, 2, 133, 0x7b);
}

} // verus!
