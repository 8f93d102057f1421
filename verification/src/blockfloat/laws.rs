//! What the narrow float formats promise, bit by bit.
use vstd::arithmetic::power2::*;
use vstd::prelude::*;
use crate::blockfloat;
use crate::blockfloat::dequant;
use crate::blockfloat::dequant::{
    dequant_fp8, dequant_mxfp4_ggml_row, dequant_mxfp4_ocp, dequant_mxfp8, dequant_nvfp4,
    dequant_nvfp4_ggml_row, dequantize_blockfloat, unpack_fp4, BlockFloatError, Factors, Fp8Scale,
    ScaleSource,
};
use crate::blockfloat::{
    e2m1_to_f32, e4m3_to_f32, e5m2_to_f32, e8m0_to_f32, e8m0_to_f32_half, exp2i, f32_to_e2m1_with,
    f32_to_e4m3, f32_to_e5m2, f32_to_e8m0, f32_to_ue4m3, is_fp4_family, is_fp8_family, is_gguf_type,
    ue4m3_to_f32, E2m1Rounding, NibbleOrder,
};
use crate::minifloat;
use crate::minifloat::{narrow_double, widen_half};

verus! {

/// The types with four-bit and with eight-bit elements by their numbers, and those that a model
/// file may name.
pub proof fn law_families_by_number(ty: u32, four: bool, eight: bool, named: bool)
    requires
        call_ensures(is_fp4_family, (ty,), four),
        call_ensures(is_fp8_family, (ty,), eight),
        call_ensures(is_gguf_type, (ty,), named),
    ensures
        four <==> ty == 39 || ty == 40 || ty == 0x8000 || ty == 0x8004,
        eight <==> ty == 0x8001 || ty == 0x8002 || ty == 0x8003,
        named <==> ty < 0x8000,
{
}

/// A normal pattern of a narrow format as the single-precision pattern with the same value: its
/// exponent moved by `d`, its mantissa at the top.
proof fn lemma_widened(mb: nat, q: nat, m: nat, d: nat)
    requires
        mb <= 23,
        q >= 1,
        m < pow2(mb),
    ensures
        minifloat::mini(((q + d) * 0x80_0000 + m * pow2((23 - mb) as nat)) as nat, 23)
            == minifloat::scaled(pow2(mb) * q + m, mb, (23 - mb + d) as nat),
        m * pow2((23 - mb) as nat) < 0x80_0000,
{
    lemma2_to64();
    let b = pow2(mb);
    let p = pow2((23 - mb) as nat);
    lemma_pow2_adds(mb, (23 - mb) as nat);
    lemma_pow2_pos((23 - mb) as nat);
    assert(m * p < b * p) by (nonlinear_arith)
        requires
            m < b,
            p > 0,
    ;
    let w = ((q + d) * 0x80_0000 + m * p) as nat;
    minifloat::lemma_mini_value(w, 23, q + d, m * p);
    minifloat::lemma_mini_value(b * q + m, mb, q, m);
    let x = pow2((q + d - 1) as nat);
    let y = pow2((q - 1) as nat);
    let z = pow2((23 - mb + d) as nat);
    lemma_pow2_adds((23 - mb) as nat, (q + d - 1) as nat);
    lemma_pow2_adds((q - 1) as nat, (23 - mb + d) as nat);
    assert((m * p + b * p) * x == (m + b) * (p * x)) by (nonlinear_arith);
    assert((m + b) * y * z == (m + b) * (y * z)) by (nonlinear_arith);
}

/// The two patterns with one sign and one magnitude are one.
proof fn lemma_bits(r: u32, neg: bool, w: u32, mag: nat)
    requires
        blockfloat::is_f32(r, neg, mag),
        w < 0x7f80_0000,
        minifloat::mini(w as nat, 23) == mag,
    ensures
        r == if neg {
            0x8000_0000 + w
        } else {
            w as int
        },
{
    let v: u32 = if neg {
        (0x8000_0000 + w) as u32
    } else {
        w
    };
    blockfloat::law_value_has_one_pattern(r, v, neg, mag);
}

/// An E4M3 code has a sign bit, four exponent bits with the bias seven and three mantissa bits. All
/// seven lower bits set are no number.
pub proof fn law_e4m3_bits(b: u8, r: u32, q: nat, m: nat)
    requires
        call_ensures(e4m3_to_f32, (b,), r),
        b % 128 == 8 * q + m,
        m < 8,
    ensures
        b % 128 == 127 ==> r == 0x7fc0_0000,
        b % 128 != 127 && q >= 1 ==> r == (if b >= 128 {
            0x8000_0000int
        } else {
            0
        }) + (q + 120) * 0x80_0000 + m * 0x10_0000,
        q == 0 ==> minifloat::f32_mag(r) == m * pow2(140) && minifloat::f32_neg(r) == (b >= 128),
{
    lemma2_to64();
    if b % 128 != 127 && q >= 1 {
        lemma_widened(3, q, m, 120);
        lemma_bits(
            r,
            b >= 128,
            ((q + 120) * 0x80_0000 + m * 0x10_0000) as u32,
            minifloat::scaled((b % 128) as nat, 3, 140),
        );
    }
}

/// An E5M2 code has a sign bit, five exponent bits with the bias fifteen and two mantissa bits, with
/// infinities and patterns that are no numbers where all exponent bits are set.
pub proof fn law_e5m2_bits(b: u8, r: u32, q: nat, m: nat)
    requires
        call_ensures(e5m2_to_f32, (b,), r),
        b % 128 == 4 * q + m,
        m < 4,
    ensures
        q == 31 && m > 0 ==> r == 0x7fc0_0000,
        q == 31 && m == 0 ==> r == if b >= 128 {
            0xff80_0000u32
        } else {
            0x7f80_0000
        },
        1 <= q <= 30 ==> r == (if b >= 128 {
            0x8000_0000int
        } else {
            0
        }) + (q + 112) * 0x80_0000 + m * 0x20_0000,
        q == 0 ==> minifloat::f32_mag(r) == m * pow2(133) && minifloat::f32_neg(r) == (b >= 128),
{
    lemma2_to64();
    if 1 <= q <= 30 {
        lemma_widened(2, q, m, 112);
        lemma_bits(
            r,
            b >= 128,
            ((q + 112) * 0x80_0000 + m * 0x20_0000) as u32,
            minifloat::scaled((b % 128) as nat, 2, 133),
        );
    }
}

/// A half-precision pattern has a sign bit, five exponent bits with the bias fifteen and ten
/// mantissa bits.
pub proof fn law_half_bits(h: u16, r: u32, q: nat, m: nat)
    requires
        call_ensures(widen_half, (h,), r),
        h % 0x8000 == 0x400 * q + m,
        m < 0x400,
    ensures
        1 <= q <= 30 ==> r == (if h >= 0x8000 {
            0x8000_0000int
        } else {
            0
        }) + (q + 112) * 0x80_0000 + m * 0x2000,
        q == 31 && m == 0 ==> r == if h >= 0x8000 {
            0xff80_0000u32
        } else {
            0x7f80_0000
        },
        q == 0 ==> minifloat::f32_mag(r) == m * pow2(125) && minifloat::f32_neg(r) == (h >= 0x8000),
{
    lemma2_to64();
    if 1 <= q <= 30 {
        lemma_widened(10, q, m, 112);
        lemma_bits(
            r,
            h >= 0x8000,
            ((q + 112) * 0x80_0000 + m * 0x2000) as u32,
            minifloat::scaled((h % 0x8000) as nat, 10, 125),
        );
    }
}

/// The eight magnitudes of a four-bit code are 0, one half, 1, one and a half, 2, 3, 4 and 6, and
/// the fourth bit is the sign.
pub proof fn law_e2m1_bits(code: u8, r: u32, q: nat, m: nat)
    requires
        call_ensures(e2m1_to_f32, (code,), r),
        code < 16,
        code % 8 == 2 * q + m,
        m < 2,
    ensures
        q >= 1 ==> r == (if code >= 8 {
            0x8000_0000int
        } else {
            0
        }) + (q + 126) * 0x80_0000 + m * 0x40_0000,
        q == 0 ==> minifloat::f32_mag(r) == m * pow2(148) && minifloat::f32_neg(r) == (code >= 8),
{
    lemma2_to64();
    if q >= 1 {
        lemma_widened(1, q, m, 126);
        lemma_bits(
            r,
            code >= 8,
            ((q + 126) * 0x80_0000 + m * 0x40_0000) as u32,
            minifloat::scaled((code % 8) as nat, 1, 148),
        );
    }
}

/// A power of two is its exponent with the bias 127, and an E8M0 scale is such an exponent.
pub proof fn law_powers_of_two(n: i32, r: u32, e: u8, s: u32, half: u32, back: u8)
    requires
        call_ensures(exp2i, (n,), r),
        call_ensures(e8m0_to_f32, (e,), s),
        call_ensures(e8m0_to_f32_half, (e,), half),
        call_ensures(f32_to_e8m0, (s,), back),
    ensures
        -126 <= n <= 127 ==> r == (n + 127) * 0x80_0000,
        n > 127 ==> r == 0x7f80_0000,
        n < -149 ==> r == 0,
        1 <= e <= 254 ==> s == e * 0x80_0000 && back == e,
        e == 255 ==> s == 0x7fc0_0000,
        2 <= e ==> half == (e - 1) * 0x80_0000,
{
    lemma2_to64();
    if -126 <= n <= 127 {
        lemma_power((n + 127) as nat);
        lemma_bits(r, false, ((n + 127) * 0x80_0000) as u32, pow2((n + 149) as nat));
    }
    if 1 <= e <= 254 {
        lemma_power(e as nat);
        lemma_bits(s, false, (e * 0x80_0000) as u32, pow2((e + 22) as nat));
    }
    if 2 <= e {
        lemma_power((e - 1) as nat);
        lemma_bits(half, false, ((e - 1) * 0x80_0000) as u32, pow2((e + 21) as nat));
    }
}

/// The magnitude of a pattern without a mantissa.
proof fn lemma_power(q: nat)
    requires
        1 <= q <= 254,
    ensures
        minifloat::mini(q * 0x80_0000, 23) == pow2(q + 22),
{
    lemma2_to64();
    minifloat::lemma_mini_value(q * 0x80_0000, 23, q, 0);
    lemma_pow2_adds(23, (q - 1) as nat);
}

/// A scale without a sign is half of what its code says as E4M3; the code of no number is zero.
pub proof fn law_halved_scales(x: u8, half: u32, whole: u32)
    requires
        x < 128,
        call_ensures(ue4m3_to_f32, (x,), half),
        call_ensures(e4m3_to_f32, (x,), whole),
    ensures
        x == 127 ==> half == 0,
        x < 127 ==> 2 * minifloat::f32_mag(half) == minifloat::f32_mag(whole),
        x < 127 ==> !minifloat::f32_neg(half),
{
    if x < 127 {
        blockfloat::law_ue4m3_is_half(x, half, whole);
    }
}

/// Everything from the greatest E4M3 magnitude on, which is 448, gets its code, and from the
/// greatest E5M2 magnitude on, which is 57344, its own. What is no number gets the code of none.
pub proof fn law_large_values_are_cut(v: u32, a: u8, b: u8)
    requires
        call_ensures(f32_to_e4m3, (v,), a),
        call_ensures(f32_to_e5m2, (v,), b),
    ensures
        v % 0x8000_0000 > 0x7f80_0000 ==> a == 0x7f && b == 0x7f,
        0x43e0_0000 <= v % 0x8000_0000 <= 0x7f80_0000 ==> a % 128 == 0x7e,
        0x4760_0000 <= v % 0x8000_0000 <= 0x7f80_0000 ==> b % 128 == 0x7b,
        v % 0x8000_0000 <= 0x7f80_0000 ==> (a >= 128) == (v >= 0x8000_0000) && (b >= 128) == (v
            >= 0x8000_0000),
{
    lemma2_to64();
    let x = minifloat::f32_abs(v) as nat;
    assert(x == v % 0x8000_0000);
    if 0x43e0_0000 <= x < 0x7f80_0000 {
        lemma_widened(3, 15, 6, 120);
        lemma_cut(x, 0x43e0_0000, (a % 128) as nat, 3, 140, 0x7e);
    }
    if 0x4760_0000 <= x < 0x7f80_0000 {
        lemma_widened(2, 30, 3, 112);
        lemma_cut(x, 0x4760_0000, (b % 128) as nat, 2, 133, 0x7b);
    }
}

/// What is not below the greatest magnitude is nearest to it.
proof fn lemma_cut(x: nat, top: nat, c: nat, mb: nat, shift: nat, max: nat)
    requires
        x >= top,
        minifloat::mini(top, 23) == minifloat::scaled(max, mb, shift),
        minifloat::nearest_even(minifloat::mini(x, 23), c, mb, shift, max),
    ensures
        c == max,
{
    if x > top {
        minifloat::lemma_mini_increases(top, x, 23);
    }
    if c < max {
        minifloat::lemma_scaled_increases(c, max, mb, shift);
        let y = minifloat::mini(x, 23);
        assert(minifloat::apart(y, minifloat::scaled(c, mb, shift)) <= minifloat::apart(
            y,
            minifloat::scaled(max, mb, shift),
        ));
    }
}

/// Rounding halves down never gives a greater magnitude than rounding them to the even code, and
/// neither touches the sign.
pub proof fn law_halves_go_down(v: u32, down: u8, even: u8)
    requires
        call_ensures(f32_to_e2m1_with, (v, E2m1Rounding::HalfDown), down),
        call_ensures(f32_to_e2m1_with, (v, E2m1Rounding::NearestEven), even),
    ensures
        down % 8 <= even % 8,
        down / 8 == even / 8,
        (down >= 8) == (v >= 0x8000_0000),
        v % 0x8000_0000 >= 0x7f80_0000 ==> down % 8 == 7 && even % 8 == 7,
{
    let x = minifloat::f32_mag(v);
    let (c, d) = ((down % 8) as nat, (even % 8) as nat);
    if minifloat::f32_abs(v) < 0x7f80_0000 && d < c {
        let (p, q) = (minifloat::scaled(c, 1, 148), minifloat::scaled(d, 1, 148));
        assert(minifloat::apart(x, p) <= minifloat::apart(x, q));
        assert(minifloat::apart(x, q) <= minifloat::apart(x, p));
    }
}

/// Adjacent codes stand two to a byte, the first in the low half. Split codes stand in blocks: the
/// low halves of the bytes of a block are its first codes, the high halves the others.
pub proof fn law_codes_in_bytes(
    bytes: &[u8],
    n: usize,
    block: usize,
    order: NibbleOrder,
    r: Vec<u8>,
    i: int,
)
    requires
        n <= 2 * bytes@.len(),
        order == NibbleOrder::SplitHalf ==> block == 32 && n % 32 == 0,
        call_ensures(unpack_fp4, (bytes, n, block, order), r),
        0 <= i < n,
    ensures
        r@.len() == n,
        order == NibbleOrder::Adjacent && i % 2 == 0 ==> r@[i] == bytes@[i / 2] % 16,
        order == NibbleOrder::Adjacent && i % 2 == 1 ==> r@[i] == bytes@[i / 2] / 16,
        order == NibbleOrder::SplitHalf && i % 32 < 16 ==> r@[i] == bytes@[i / 32 * 16 + i % 32]
            % 16,
        order == NibbleOrder::SplitHalf && i % 32 >= 16 ==> r@[i] == bytes@[i / 32 * 16 + i % 32
            - 16] / 16,
{
    assert(r@[i] == dequant::fp4_code(bytes@, i, block as int, order));
}

/// Thirty-two elements of MXFP4 take seventeen bytes: the scale, and sixteen bytes whose low halves
/// are the first sixteen codes and whose high halves are the others. An element is held doubled and
/// its scale halved.
pub proof fn law_mxfp4_blocks(
    bytes: &[u8],
    n: usize,
    r: Vec<Factors>,
    k: int,
    j: int,
    low: u32,
    high: u32,
    scale: u32,
)
    requires
        n / 32 * 17 <= bytes@.len(),
        call_ensures(dequant_mxfp4_ggml_row, (bytes, n), r),
        0 <= k < n / 32,
        0 <= j < 16,
        call_ensures(e2m1_to_f32, ((bytes@[17 * k + 1 + j] % 16) as u8,), low),
        call_ensures(e2m1_to_f32, ((bytes@[17 * k + 1 + j] / 16) as u8,), high),
        call_ensures(e8m0_to_f32_half, (bytes@[17 * k],), scale),
    ensures
        r@.len() == n / 32 * 32,
        r@[32 * k + j].scale == scale && r@[32 * k + 16 + j].scale == scale,
        minifloat::f32_mag(r@[32 * k + j].elem) == 2 * minifloat::f32_mag(low),
        minifloat::f32_mag(r@[32 * k + 16 + j].elem) == 2 * minifloat::f32_mag(high),
        minifloat::f32_neg(r@[32 * k + j].elem) == minifloat::f32_neg(low),
        minifloat::f32_neg(r@[32 * k + 16 + j].elem) == minifloat::f32_neg(high),
        r@[32 * k + j].global == 0x3f80_0000,
{
    let (a, b) = (32 * k + j, 32 * k + 16 + j);
    assert(dequant::mxfp4_ggml_factors(bytes@, a, r@[a]));
    assert(dequant::mxfp4_ggml_factors(bytes@, b, r@[b]));
    assert(a / 32 == k && b / 32 == k && a % 32 == j && b % 32 == 16 + j);
    let mag = blockfloat::e8m0_half_mag(bytes@[17 * k]);
    blockfloat::law_value_has_one_pattern(r@[a].scale, scale, false, mag);
    blockfloat::law_value_has_one_pattern(r@[b].scale, scale, false, mag);
    lemma_twice((bytes@[17 * k + 1 + j] % 16 % 8) as nat);
    lemma_twice((bytes@[17 * k + 1 + j] / 16 % 8) as nat);
}

/// A doubled magnitude.
proof fn lemma_twice(c: nat)
    ensures
        minifloat::scaled(c, 1, 149) == 2 * minifloat::scaled(c, 1, 148),
{
    lemma_pow2_unfold(149);
    let m = minifloat::mini(c, 1);
    let p = pow2(148);
    assert(m * (2 * p) == 2 * (m * p)) by (nonlinear_arith);
}

/// Sixty-four elements of NVFP4 take thirty-six bytes: four scales, and eight bytes for the sixteen
/// elements of each scale, the low halves first.
pub proof fn law_nvfp4_blocks(
    bytes: &[u8],
    n: usize,
    r: Vec<Factors>,
    k: int,
    g: int,
    j: int,
    low: u32,
    high: u32,
    scale: u32,
)
    requires
        n / 64 * 36 <= bytes@.len(),
        call_ensures(dequant_nvfp4_ggml_row, (bytes, n), r),
        0 <= k < n / 64,
        0 <= g < 4,
        0 <= j < 8,
        call_ensures(e2m1_to_f32, ((bytes@[36 * k + 4 + 8 * g + j] % 16) as u8,), low),
        call_ensures(e2m1_to_f32, ((bytes@[36 * k + 4 + 8 * g + j] / 16) as u8,), high),
        call_ensures(ue4m3_to_f32, (bytes@[36 * k + g],), scale),
    ensures
        r@.len() == n / 64 * 64,
        r@[64 * k + 16 * g + j].scale == scale && r@[64 * k + 16 * g + 8 + j].scale == scale,
        minifloat::f32_mag(r@[64 * k + 16 * g + j].elem) == 2 * minifloat::f32_mag(low),
        minifloat::f32_mag(r@[64 * k + 16 * g + 8 + j].elem) == 2 * minifloat::f32_mag(high),
        minifloat::f32_neg(r@[64 * k + 16 * g + j].elem) == minifloat::f32_neg(low),
        minifloat::f32_neg(r@[64 * k + 16 * g + 8 + j].elem) == minifloat::f32_neg(high),
{
    let (a, b) = (64 * k + 16 * g + j, 64 * k + 16 * g + 8 + j);
    assert(dequant::nvfp4_ggml_factors(bytes@, a, r@[a]));
    assert(dequant::nvfp4_ggml_factors(bytes@, b, r@[b]));
    assert(a / 64 == k && b / 64 == k && a % 64 / 16 == g && b % 64 / 16 == g);
    assert(a % 16 == j && b % 16 == 8 + j);
    let s = bytes@[36 * k + g];
    assert(dequant::nvfp4_scale(bytes@, a) == s && dequant::nvfp4_scale(bytes@, b) == s);
    if s != 0x7f {
        let mag = minifloat::scaled((s % 128) as nat, 3, 139);
        blockfloat::law_value_has_one_pattern(r@[a].scale, scale, false, mag);
        blockfloat::law_value_has_one_pattern(r@[b].scale, scale, false, mag);
    }
    lemma_twice((bytes@[36 * k + 4 + 8 * g + j] % 16 % 8) as nat);
    lemma_twice((bytes@[36 * k + 4 + 8 * g + j] / 16 % 8) as nat);
}

/// With scales aside, two adjacent four-bit elements share a byte. An E8M0 scale holds for
/// thirty-two elements, of four bits or of eight, and is zero where it is no number. An E4M3 scale
/// holds for sixteen, together with the scale of the whole.
pub proof fn law_scales_aside(
    data: &[u8],
    scales: &[u8],
    global: u32,
    n: usize,
    mx: Vec<Factors>,
    nv: Vec<Factors>,
    m8: Vec<Factors>,
    i: int,
    four: u32,
    eight: u32,
    e8: u32,
    e4: u32,
)
    requires
        call_ensures(
            dequant_mxfp4_ocp,
            (data, scales, n),
            Ok::<Vec<Factors>, BlockFloatError>(mx),
        ),
        call_ensures(
            dequant_nvfp4,
            (data, scales, global, n),
            Ok::<Vec<Factors>, BlockFloatError>(nv),
        ),
        call_ensures(dequant_mxfp8, (data, scales, n), Ok::<Vec<Factors>, BlockFloatError>(m8)),
        0 <= i < n,
        call_ensures(
            e2m1_to_f32,
            ((if i % 2 == 0 {
                data@[i / 2] % 16
            } else {
                data@[i / 2] / 16
            }) as u8,),
            four,
        ),
        call_ensures(e4m3_to_f32, (data@[i],), eight),
        call_ensures(e8m0_to_f32, (scales@[i / 32],), e8),
        call_ensures(e4m3_to_f32, (scales@[i / 16],), e4),
    ensures
        mx@.len() == n && nv@.len() == n && m8@.len() == n,
        mx@[i].elem == four && nv@[i].elem == four && m8@[i].elem == eight,
        scales@[i / 32] < 255 ==> mx@[i].scale == e8 && m8@[i].scale == e8,
        scales@[i / 32] == 255 ==> mx@[i].scale == 0 && m8@[i].scale == 0,
        scales@[i / 16] % 128 < 127 ==> nv@[i].scale == e4 && nv@[i].global == global,
        scales@[i / 16] % 128 == 127 ==> nv@[i].scale == 0,
        mx@[i].global == 0x3f80_0000 && m8@[i].global == 0x3f80_0000,
{
    assert(dequant::mxfp4_ocp_factors(data@, scales@, i, mx@[i]));
    assert(dequant::nvfp4_factors(data@, scales@, global, i, nv@[i]));
    assert(dequant::mxfp8_factors(data@, scales@, i, m8@[i]));
    let c = (if i % 2 == 0 {
        data@[i / 2] % 16
    } else {
        data@[i / 2] / 16
    }) as u8;
    let (neg, mag) = ((c / 8) % 2 == 1, minifloat::scaled((c % 8) as nat, 1, 148));
    blockfloat::law_value_has_one_pattern(mx@[i].elem, four, neg, mag);
    blockfloat::law_value_has_one_pattern(nv@[i].elem, four, neg, mag);
    lemma_e4m3_once(data@[i], m8@[i].elem, eight);
    if scales@[i / 16] % 128 < 127 {
        lemma_e4m3_once(scales@[i / 16], nv@[i].scale, e4);
    }
    if scales@[i / 32] < 255 {
        let mag = blockfloat::e8m0_mag(scales@[i / 32]);
        blockfloat::law_value_has_one_pattern(mx@[i].scale, e8, false, mag);
        blockfloat::law_value_has_one_pattern(m8@[i].scale, e8, false, mag);
    }
}

/// An E4M3 code has one value.
proof fn lemma_e4m3_once(b: u8, x: u32, y: u32)
    requires
        blockfloat::e4m3_decodes(b, x),
        blockfloat::e4m3_decodes(b, y),
    ensures
        x == y,
{
    if b % 128 != 127 {
        blockfloat::law_value_has_one_pattern(
            x,
            y,
            b >= 128,
            minifloat::scaled((b % 128) as nat, 3, 140),
        );
    }
}

/// A dense eight-bit tensor has an element in each byte, row by row, and the scale of each element
/// is that of its row and column.
pub proof fn law_dense_elements(
    ty: u32,
    data: &[u8],
    rows: usize,
    cols: usize,
    scale: Fp8Scale<'_>,
    v: Vec<Factors>,
    i: int,
    j: int,
    elem: u32,
)
    requires
        rows * cols <= usize::MAX,
        call_ensures(
            dequant_fp8,
            (ty, data, rows, cols, scale),
            Ok::<Vec<Factors>, BlockFloatError>(v),
        ),
        0 <= i < rows,
        0 <= j < cols,
        call_ensures(e4m3_to_f32, (data@[i * cols + j],), elem),
    ensures
        ty == 0x8001 || ty == 0x8002,
        v@.len() == rows * cols,
        ty == 0x8001 ==> v@[i * cols + j].elem == elem,
        v@[i * cols + j].scale == scale.scale_at(i as nat, j as nat, cols as nat),
        v@[i * cols + j].global == 0x3f80_0000,
{
    let at = i * cols + j;
    assert(0 <= at < rows * cols) by (nonlinear_arith)
        requires
            at == i * cols + j,
            0 <= i,
            i + 1 <= rows,
            0 <= j < cols,
    ;
    vstd::arithmetic::div_mod::lemma_fundamental_div_mod_converse(at, cols as int, i, j);
    assert(dequant::fp8_factors(ty, data@, cols as nat, scale, at, v@[at]));
    if ty == 0x8001 {
        lemma_e4m3_once(data@[at], v@[at].elem, elem);
    }
}

/// Every tensor is read by the reader of its type: with its scales among the elements as MXFP4 or
/// NVFP4, with its scales aside as MXFP4, NVFP4 or MXFP8, and with floats for scales as a dense
/// tensor. No other combination is read.
pub proof fn law_types_have_their_readers(
    ty: u32,
    data: &[u8],
    rows: usize,
    cols: usize,
    scales: ScaleSource<'_>,
    r: Result<Vec<Factors>, BlockFloatError>,
)
    requires
        rows * cols <= usize::MAX,
        call_ensures(dequantize_blockfloat, (ty, data, rows, cols, scales), r),
    ensures
        r matches Ok(v) ==> v@.len() == rows * cols,
        scales is Interleaved && ty != 39 && ty != 40 ==> r == Err::<Vec<Factors>, _>(
            BlockFloatError::NotBlockFloat(ty),
        ),
        scales is Sidecar && ty != 0x8004 && ty != 0x8000 && ty != 0x8003 ==> r == Err::<
            Vec<Factors>,
            _,
        >(BlockFloatError::NotBlockFloat(ty)),
        scales is Float && ty != 0x8001 && ty != 0x8002 ==> r == Err::<Vec<Factors>, _>(
            BlockFloatError::NotBlockFloat(ty),
        ),
        scales is Interleaved && ty == 39 && r is Ok ==> cols % 32 == 0 && data@.len() >= rows
            * cols / 32 * 17,
        scales is Interleaved && ty == 40 && r is Ok ==> cols % 64 == 0 && data@.len() >= rows
            * cols / 64 * 36,
{
}

/// What lies halfway between two neighbouring codes is nearest to both and to no other.
proof fn lemma_halfway(x: nat, c: nat, d: nat, mb: nat, shift: nat, max: nat)
    requires
        2 * x == minifloat::scaled(c, mb, shift) + minifloat::scaled(c + 1, mb, shift),
        c < max,
        d <= max,
        forall|o: nat|
            o <= max ==> minifloat::apart(x, minifloat::scaled(d, mb, shift)) <= minifloat::apart(
                x,
                #[trigger] minifloat::scaled(o, mb, shift),
            ),
    ensures
        d == c || d == c + 1,
        minifloat::apart(x, minifloat::scaled(c, mb, shift)) == minifloat::apart(
            x,
            minifloat::scaled(c + 1, mb, shift),
        ),
{
    minifloat::lemma_scaled_increases(c, c + 1, mb, shift);
    if d < c {
        minifloat::lemma_scaled_increases(d, c, mb, shift);
    } else if d > c + 1 {
        minifloat::lemma_scaled_increases(c + 1, d, mb, shift);
    }
    assert(minifloat::apart(x, minifloat::scaled(d, mb, shift)) <= minifloat::apart(
        x,
        minifloat::scaled(c, mb, shift),
    ));
}

/// A value halfway between two E4M3 or two E5M2 magnitudes gets the even code of both.
pub proof fn law_halves_go_to_the_even_code(v: u32, c: nat, a: u8, b: u8)
    requires
        v < 0x7f80_0000,
        call_ensures(f32_to_e4m3, (v,), a),
        call_ensures(f32_to_e5m2, (v,), b),
    ensures
        c < 0x7e && 2 * minifloat::f32_mag(v) == minifloat::scaled(c, 3, 140) + minifloat::scaled(
            c + 1,
            3,
            140,
        ) ==> a == if c % 2 == 0 {
            c
        } else {
            c + 1
        },
        c < 0x7b && 2 * minifloat::f32_mag(v) == minifloat::scaled(c, 2, 133) + minifloat::scaled(
            c + 1,
            2,
            133,
        ) ==> b == if c % 2 == 0 {
            c
        } else {
            c + 1
        },
{
    let x = minifloat::f32_mag(v);
    if c < 0x7e && 2 * x == minifloat::scaled(c, 3, 140) + minifloat::scaled(c + 1, 3, 140) {
        lemma_halfway(x, c, (a % 128) as nat, 3, 140, 0x7e);
    }
    if c < 0x7b && 2 * x == minifloat::scaled(c, 2, 133) + minifloat::scaled(c + 1, 2, 133) {
        lemma_halfway(x, c, (b % 128) as nat, 2, 133, 0x7b);
    }
}

/// A value halfway between two four-bit magnitudes gets the smaller one or the even code, as the
/// rule says.
pub proof fn law_halves_of_four_bits(v: u32, c: nat, down: u8, even: u8)
    requires
        v < 0x7f80_0000,
        call_ensures(f32_to_e2m1_with, (v, E2m1Rounding::HalfDown), down),
        call_ensures(f32_to_e2m1_with, (v, E2m1Rounding::NearestEven), even),
        c < 7,
        2 * minifloat::f32_mag(v) == minifloat::scaled(c, 1, 148) + minifloat::scaled(
            c + 1,
            1,
            148,
        ),
    ensures
        down == c,
        even == if c % 2 == 0 {
            c
        } else {
            c + 1
        },
{
    let x = minifloat::f32_mag(v);
    lemma_halfway(x, c, (down % 8) as nat, 1, 148, 7);
    lemma_halfway(x, c, (even % 8) as nat, 1, 148, 7);
}

/// A double-precision number that single precision can hold keeps its value, and one halfway between
/// two neighbours gets the even one. What is no number stays none.
pub proof fn law_doubles_are_rounded(d: u64, r: u32, c: nat)
    requires
        call_ensures(narrow_double, (d,), r),
    ensures
        (r >= 0x8000_0000) == (d >= 0x8000_0000_0000_0000),
        ({
            let x = minifloat::mini((d % 0x8000_0000_0000_0000) as nat, 52);
            &&& d % 0x8000_0000_0000_0000 > 0x7ff0_0000_0000_0000 ==> r % 0x8000_0000 > 0x7f80_0000
            &&& d % 0x8000_0000_0000_0000 <= 0x7ff0_0000_0000_0000 && c <= 0x7f80_0000 && x
                == minifloat::scaled(c, 23, 925) ==> r % 0x8000_0000 == c
            &&& d % 0x8000_0000_0000_0000 <= 0x7ff0_0000_0000_0000 && c < 0x7f80_0000 && 2 * x
                == minifloat::scaled(c, 23, 925) + minifloat::scaled(c + 1, 23, 925) ==> r
                % 0x8000_0000 == if c % 2 == 0 {
                c
            } else {
                c + 1
            }
        }),
{
    let a = (d % 0x8000_0000_0000_0000) as nat;
    let x = minifloat::mini(a, 52);
    let e = minifloat::f32_abs(r) as nat;
    assert(e == r % 0x8000_0000);
    if a <= 0x7ff0_0000_0000_0000 {
        if c <= 0x7f80_0000 && x == minifloat::scaled(c, 23, 925) {
            minifloat::lemma_nearest_is_exact(c, e, 23, 925, 0x7f80_0000);
        }
        if c < 0x7f80_0000 && 2 * x == minifloat::scaled(c, 23, 925) + minifloat::scaled(
            c + 1,
            23,
            925,
        ) {
            lemma_halfway(x, c, e, 23, 925, 0x7f80_0000);
        }
    }
}

/// A normal unsigned scale below 256 is the code of its value, and from 256 on every scale is the
/// greatest.
pub proof fn law_scales_are_their_own_codes(x: u8, v: u32, r: u8)
    requires
        8 <= x < 127,
        call_ensures(e4m3_to_f32, (x,), v),
        call_ensures(f32_to_ue4m3, (v,), r),
    ensures
        x < 120 ==> r == x,
        x >= 120 ==> r == 0x7e,
{
    let q = (x / 8) as nat;
    let m = (x % 8) as nat;
    law_e4m3_bits(x, v, q, m);
    assert(v == (q + 120) * 0x80_0000 + m * 0x10_0000);
}

} // verus!
