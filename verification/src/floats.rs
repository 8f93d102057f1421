//! The order of single-precision numbers, told from their bits.
use vstd::arithmetic::power2::*;
use vstd::prelude::*;
use crate::minifloat;
use crate::minifloat::{F32_INF, F32_SIGN};

verus! {

/// Bits that stand for no number.
pub open spec fn nan(bits: u32) -> bool {
    minifloat::f32_abs(bits) > F32_INF
}

/// Where a number stands in the order of all numbers; both zeros stand at one place.
pub open spec fn rank(bits: u32) -> int {
    if bits >= F32_SIGN {
        -(bits - F32_SIGN)
    } else {
        bits as int
    }
}

/// Both are numbers and `a` is above `b`.
pub open spec fn above(a: u32, b: u32) -> bool {
    !nan(a) && !nan(b) && rank(a) > rank(b)
}

/// Whether bits stand for no number.
pub fn is_nan(bits: u32) -> (r: bool)
    ensures
        r == nan(bits),
{
    let abs: u32 = if bits >= F32_SIGN {
        bits - F32_SIGN
    } else {
        bits
    };
    abs > F32_INF
}

/// Where a number stands in the order of all numbers.
pub fn rank_of(bits: u32) -> (r: i64)
    ensures
        r == rank(bits),
        -0x8000_0000 < r < 0x8000_0000,
{
    if bits >= F32_SIGN {
        -((bits - F32_SIGN) as i64)
    } else {
        bits as i64
    }
}

/// Whether both are numbers and `a` is above `b`.
pub fn is_above(a: u32, b: u32) -> (r: bool)
    ensures
        r == above(a, b),
{
    !is_nan(a) && !is_nan(b) && rank_of(a) > rank_of(b)
}

/// The single-precision pattern for minus infinity.
pub const F32_NEG_INF: u32 = 0xff80_0000;

/// The whole part of a number, kept to the range of unsigned 32-bit numbers; zero for bits that
/// stand for no number.
pub open spec fn whole_part(bits: u32) -> u32 {
    if nan(bits) || bits >= F32_SIGN {
        0
    } else if bits == F32_INF {
        u32::MAX
    } else {
        let n = minifloat::f32_mag(bits) / pow2(149);
        if n > u32::MAX {
            u32::MAX
        } else {
            n as u32
        }
    }
}

/// The magnitude of a finite number by its exponent and its mantissa.
proof fn lemma_parts(bits: u32)
    requires
        0x80_0000 <= bits < F32_INF,
    ensures
        minifloat::f32_mag(bits) == (bits % 0x80_0000 + 0x80_0000) as nat * pow2(
            (bits / 0x80_0000 - 1) as nat,
        ),
{
    lemma2_to64();
}

/// The whole part of a number, kept to the range of unsigned 32-bit numbers.
pub fn to_whole(bits: u32) -> (r: u32)
    ensures
        r == whole_part(bits),
{
    if bits >= F32_SIGN || bits > F32_INF {
        return 0;
    }
    if bits == F32_INF {
        return u32::MAX;
    }
    let e: u32 = bits / 0x80_0000;
    let m: u64 = (bits % 0x80_0000) as u64 + 0x80_0000;
    let ghost p149 = pow2(149);
    proof {
        lemma2_to64();
        lemma_pow2_pos(149);
        lemma_pow2_adds(126, 23);
        lemma_pow2_strictly_increases(22, 23);
    }
    if e == 0 {
        proof {
            lemma_pow2_strictly_increases(23, 149);
            assert(minifloat::f32_mag(bits) == bits);
            vstd::arithmetic::div_mod::lemma_basic_div(bits as int, p149 as int);
        }
        return 0;
    }
    proof {
        lemma_parts(bits);
    }
    let ghost mag = minifloat::f32_mag(bits);
    let ghost p = pow2((e - 1) as nat);
    if e >= 150 {
        if e >= 159 {
            proof {
                lemma_pow2_adds(149, (e - 150) as nat);
                let s = pow2((e - 150) as nat);
                assert(mag == (m * s) * p149) by (nonlinear_arith)
                    requires
                        mag == m * p,
                        p == p149 * s,
                ;
                vstd::arithmetic::div_mod::lemma_div_by_multiple((m * s) as int, p149 as int);
                assert(s >= 0x200) by {
                    if e > 159 {
                        lemma_pow2_strictly_increases(9, (e - 150) as nat);
                    }
                }
                assert(m * s > u32::MAX) by (nonlinear_arith)
                    requires
                        m >= 0x80_0000,
                        s >= 0x200,
                ;
            }
            return u32::MAX;
        }
        let mut s: u64 = 1;
        let mut i: u32 = 150;
        while i < e
            invariant
                150 <= i <= e <= 158,
                s == pow2((i - 150) as nat),
                s <= 0x100,
            decreases e - i,
        {
            proof {
                lemma_pow2_unfold((i + 1 - 150) as nat);
                lemma2_to64();
                if i + 1 - 150 < 8 {
                    lemma_pow2_strictly_increases((i + 1 - 150) as nat, 8);
                }
            }
            s = s * 2;
            i = i + 1;
        }
        proof {
            lemma_pow2_adds(149, (e - 150) as nat);
            assert(mag == (m * s) * p149) by (nonlinear_arith)
                requires
                    mag == m * p,
                    p == p149 * s,
            ;
            vstd::arithmetic::div_mod::lemma_div_by_multiple((m * s) as int, p149 as int);
            assert(m * s <= 0xff_ffff * 0x100) by (nonlinear_arith)
                requires
                    m <= 0xff_ffff,
                    s <= 0x100,
            ;
        }
        return (m * s) as u32;
    }
    let mut d: u64 = m;
    let mut i: u32 = e;
    let ghost mut q: nat = 1;
    while i < 150
        invariant
            e <= i <= 150,
            1 <= e,
            d == m as nat / q,
            q == pow2((i - e) as nat),
            q > 0,
        decreases 150 - i,
    {
        proof {
            lemma_pow2_unfold((i + 1 - e) as nat);
            vstd::arithmetic::div_mod::lemma_div_denominator(m as int, q as int, 2);
            q = q * 2;
        }
        d = d / 2;
        i = i + 1;
    }
    proof {
        lemma_pow2_adds((e - 1) as nat, (150 - e) as nat);
        lemma_pow2_pos((e - 1) as nat);
        assert(p149 == p * q);
        assert(mag / p149 == m as nat / q) by {
            vstd::arithmetic::div_mod::lemma_div_denominator(mag as int, p as int, q as int);
            vstd::arithmetic::div_mod::lemma_div_by_multiple(m as int, p as int);
        }
        assert(d <= m) by (nonlinear_arith)
            requires
                d == m as nat / q,
                q >= 1,
        ;
    }
    d as u32
}

/// Bits that stand for no number or an infinite one.
pub open spec fn not_finite(bits: u32) -> bool {
    minifloat::f32_abs(bits) >= F32_INF
}

/// Whether bits stand for no number or an infinite one.
pub fn is_not_finite(bits: u32) -> (r: bool)
    ensures
        r == not_finite(bits),
{
    let abs: u32 = if bits >= 0x8000_0000 {
        bits - 0x8000_0000
    } else {
        bits
    };
    abs >= F32_INF
}

/// Bits that stand for no number or an infinite one, or for a number that is not positive.
pub open spec fn not_positive(bits: u32) -> bool {
    not_finite(bits) || rank(bits) <= 0
}

/// Whether bits stand for no number or an infinite one, or for a number that is not positive.
pub fn is_not_positive(bits: u32) -> (r: bool)
    ensures
        r == not_positive(bits),
{
    bits >= F32_INF || bits == 0
}

} // verus!
