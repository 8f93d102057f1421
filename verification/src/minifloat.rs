//! Binary floats as bit patterns.
//!
//! A pattern without its sign is a number `c` whose low `mb` bits are the mantissa and whose other
//! bits are the exponent. It stands for a whole number of the format's least positive value; that
//! number is [`mini`]. Formats differ in `mb` and in the size of that least value: in single
//! precision (`mb` 23) it is `2^-149`, and a format whose least value is `2^(shift - 149)` is
//! described by `mb` and `shift`.
use vstd::arithmetic::power2::*;
use vstd::prelude::*;

verus! {

/// The magnitude of the pattern `c` in units of the format's least positive value.
pub open spec fn mini(c: nat, mb: nat) -> nat {
    let p = pow2(mb);
    if c < p {
        c
    } else {
        (c % p + p) * pow2((c / p - 1) as nat)
    }
}

/// The magnitude of the pattern `c` in units of `2^-149`.
pub open spec fn scaled(c: nat, mb: nat, shift: nat) -> nat {
    mini(c, mb) * pow2(shift)
}

/// The distance of two numbers.
pub open spec fn apart(x: nat, y: nat) -> nat {
    if x <= y {
        (y - x) as nat
    } else {
        (x - y) as nat
    }
}

/// Of the patterns up to `max`, `c` is the nearest to the magnitude `x`, which counts units of
/// `2^-149`. No other pattern is as near unless `c` is even.
pub open spec fn nearest_even(x: nat, c: nat, mb: nat, shift: nat, max: nat) -> bool {
    &&& c <= max
    &&& forall|o: nat|
        o <= max ==> apart(x, scaled(c, mb, shift)) <= apart(x, #[trigger] scaled(o, mb, shift))
    &&& forall|o: nat|
        o <= max && o != c && apart(x, scaled(c, mb, shift)) == apart(
            x,
            #[trigger] scaled(o, mb, shift),
        ) ==> c % 2 == 0
}

/// The single-precision pattern for infinity, without its sign.
pub const F32_INF: u32 = 0x7f80_0000;

/// The sign bit of a single-precision pattern.
pub const F32_SIGN: u32 = 0x8000_0000;

/// A single-precision pattern that stands for no number.
pub const F32_NAN: u32 = 0x7fc0_0000;

/// A single-precision pattern without its sign.
pub open spec fn f32_abs(bits: u32) -> u32 {
    if bits >= F32_SIGN {
        (bits - F32_SIGN) as u32
    } else {
        bits
    }
}

/// The sign of a single-precision pattern.
pub open spec fn f32_neg(bits: u32) -> bool {
    bits >= F32_SIGN
}

/// The magnitude of a finite single-precision pattern in units of `2^-149`.
pub open spec fn f32_mag(bits: u32) -> nat {
    mini(f32_abs(bits) as nat, 23)
}

/// Neighbouring patterns of one binade are one step apart, and so is the step into the next.
pub proof fn lemma_mini_step(c: nat, mb: nat)
    ensures
        c >= pow2(mb) ==> mini(c + 1, mb) == mini(c, mb) + pow2((c / pow2(mb) - 1) as nat),
        c < pow2(mb) ==> mini(c + 1, mb) == mini(c, mb) + 1,
        mini(c, mb) < mini(c + 1, mb),
{
    let p = pow2(mb);
    lemma_pow2_pos(mb);
    let q = c / p;
    let r = c % p;
    vstd::arithmetic::div_mod::lemma_fundamental_div_mod(c as int, p as int);
    assert(c == p * q + r && r < p);
    if c >= p {
        assert(q >= 1) by (nonlinear_arith)
            requires
                c == p * q + r,
                r < p,
                c >= p,
        ;
        lemma_pow2_pos((q - 1) as nat);
        if r + 1 < p {
            vstd::arithmetic::div_mod::lemma_fundamental_div_mod_converse(
                (c + 1) as int,
                p as int,
                q as int,
                (r + 1) as int,
            );
            assert((r + 1 + p) * pow2((q - 1) as nat) == (r + p) * pow2((q - 1) as nat) + pow2(
                (q - 1) as nat,
            )) by (nonlinear_arith);
        } else {
            assert(c + 1 == p * (q + 1)) by (nonlinear_arith)
                requires
                    c == p * q + r,
                    r + 1 == p,
            ;
            vstd::arithmetic::div_mod::lemma_fundamental_div_mod_converse(
                (c + 1) as int,
                p as int,
                (q + 1) as int,
                0,
            );
            lemma_pow2_unfold(q);
            assert((0 + p) * (2 * pow2((q - 1) as nat)) == (r + p) * pow2((q - 1) as nat) + pow2(
                (q - 1) as nat,
            )) by (nonlinear_arith)
                requires
                    r + 1 == p,
            ;
        }
    } else {
        if c + 1 == p {
            vstd::arithmetic::div_mod::lemma_fundamental_div_mod_converse(
                (c + 1) as int,
                p as int,
                1,
                0,
            );
            assert(pow2(0) == 1) by {
                lemma2_to64();
            }
            assert((0 + p) * 1 == p) by (nonlinear_arith);
        }
    }
}

/// The magnitude of a pattern with the exponent `q`, which is not zero, and the mantissa `r`.
pub proof fn lemma_mini_value(c: nat, mb: nat, q: nat, r: nat)
    requires
        c == pow2(mb) * q + r,
        r < pow2(mb),
        q >= 1,
    ensures
        mini(c, mb) == (r + pow2(mb)) * pow2((q - 1) as nat),
{
    let p = pow2(mb);
    assert(c == q * p + r) by (nonlinear_arith)
        requires
            c == p * q + r,
    ;
    vstd::arithmetic::div_mod::lemma_fundamental_div_mod_converse(
        c as int,
        p as int,
        q as int,
        r as int,
    );
    assert(c >= p) by (nonlinear_arith)
        requires
            c == p * q + r,
            q >= 1,
    ;
}

/// A greater pattern has a greater magnitude.
pub proof fn lemma_mini_increases(a: nat, b: nat, mb: nat)
    requires
        a < b,
    ensures
        mini(a, mb) < mini(b, mb),
    decreases b - a,
{
    lemma_mini_step((b - 1) as nat, mb);
    if a < b - 1 {
        lemma_mini_increases(a, (b - 1) as nat, mb);
    }
}

/// A greater pattern has a greater scaled magnitude.
pub proof fn lemma_scaled_increases(a: nat, b: nat, mb: nat, shift: nat)
    requires
        a < b,
    ensures
        scaled(a, mb, shift) < scaled(b, mb, shift),
{
    lemma_mini_increases(a, b, mb);
    lemma_pow2_pos(shift);
    let x = mini(a, mb);
    let y = mini(b, mb);
    let w = pow2(shift);
    assert(x * w < y * w) by (nonlinear_arith)
        requires
            x < y,
            w > 0,
    ;
}

/// The pattern that a magnitude came from is the nearest one.
pub proof fn lemma_nearest_is_exact(c: nat, d: nat, mb: nat, shift: nat, max: nat)
    requires
        c <= max,
        nearest_even(scaled(c, mb, shift), d, mb, shift, max),
    ensures
        d == c,
{
    assert(apart(scaled(c, mb, shift), scaled(c, mb, shift)) == 0);
    if d < c {
        lemma_scaled_increases(d, c, mb, shift);
    } else if c < d {
        lemma_scaled_increases(c, d, mb, shift);
    }
}

/// There is one nearest pattern, so that a contract over it fixes the code.
pub proof fn law_nearest_is_unique(x: nat, c: nat, d: nat, mb: nat, shift: nat, max: nat)
    requires
        nearest_even(x, c, mb, shift, max),
        nearest_even(x, d, mb, shift, max),
    ensures
        c == d,
{
    let mc = scaled(c, mb, shift);
    let md = scaled(d, mb, shift);
    assert(apart(x, mc) <= apart(x, md));
    assert(apart(x, md) <= apart(x, mc));
    if c < d {
        lemma_scaled_increases(c, d, mb, shift);
        assert(c % 2 == 0 && d % 2 == 0);
        lemma_scaled_increases(c, c + 1, mb, shift);
        lemma_scaled_increases(c + 1, d, mb, shift);
        assert(apart(x, scaled(c + 1, mb, shift)) >= apart(x, mc));
    } else if d < c {
        lemma_scaled_increases(d, c, mb, shift);
        assert(c % 2 == 0 && d % 2 == 0);
        lemma_scaled_increases(d, d + 1, mb, shift);
        lemma_scaled_increases(d + 1, c, mb, shift);
        assert(apart(x, scaled(d + 1, mb, shift)) >= apart(x, md));
    }
}

/// Between two neighbours `lo` and `lo + 1`, the nearer one, or of two equally near ones the even
/// one, is the nearest of all patterns; above all patterns it is the last.
proof fn lemma_nearest_of_neighbours(x: nat, lo: nat, c: nat, mb: nat, shift: nat, max: nat)
    requires
        scaled(lo, mb, shift) <= x < scaled(lo + 1, mb, shift),
        ({
            let below = x - scaled(lo, mb, shift);
            let above = scaled(lo + 1, mb, shift) - x;
            c == if below > above || (below == above && lo % 2 == 1) {
                lo + 1
            } else {
                lo
            }
        }),
    ensures
        nearest_even(
            x,
            if c <= max {
                c
            } else {
                max
            },
            mb,
            shift,
            max,
        ),
{
    let d = if c <= max {
        c
    } else {
        max
    };
    assert forall|o: nat| o <= max implies {
        &&& apart(x, scaled(d, mb, shift)) <= apart(x, #[trigger] scaled(o, mb, shift))
        &&& (o != d && apart(x, scaled(d, mb, shift)) == apart(x, scaled(o, mb, shift)) ==> d % 2
            == 0)
    } by {
        if o < lo {
            lemma_scaled_increases(o, lo, mb, shift);
        }
        if o > lo + 1 {
            lemma_scaled_increases(lo + 1, o, mb, shift);
        }
        if c > max {
            if max < lo {
                lemma_scaled_increases(max, lo, mb, shift);
            }
            if o < max {
                lemma_scaled_increases(o, max, mb, shift);
            }
        }
    }
}

/// `2^n`.
fn power_of_two(n: u32) -> (r: u64)
    requires
        n < 64,
    ensures
        r == pow2(n as nat),
        r > 0,
{
    proof {
        lemma2_to64();
        lemma2_to64_rest();
    }
    let mut r: u64 = 1;
    let mut i: u32 = 0;
    while i < n
        invariant
            i <= n < 64,
            r == pow2(i as nat),
            r > 0,
        decreases n - i,
    {
        proof {
            lemma_pow2_unfold((i + 1) as nat);
            lemma_pow2_strictly_increases((i + 1) as nat, 64);
            lemma2_to64_rest();
        }
        r = r * 2;
        i = i + 1;
    }
    r
}

/// The single-precision pattern, without a sign, for `m * 2^k` units of `2^-149`.
pub fn pack_f32(m: u32, k: u32) -> (r: u32)
    requires
        m < 0x100_0000,
        k <= 253,
    ensures
        r < F32_INF,
        mini(r as nat, 23) == m * pow2(k as nat),
{
    proof {
        lemma2_to64();
        lemma_pow2_pos(k as nat);
    }
    if m == 0 {
        assert(0 * pow2(k as nat) == 0) by (nonlinear_arith);
        return 0;
    }
    let mut s: u32 = m;
    let mut e: u32 = k;
    while s < 0x80_0000 && e > 0
        invariant
            0 < s < 0x100_0000,
            e <= 253,
            s * pow2(e as nat) == m * pow2(k as nat),
        decreases e,
    {
        proof {
            lemma_pow2_unfold(e as nat);
            let w = pow2((e - 1) as nat);
            assert((s * 2) * w == s * (2 * w)) by (nonlinear_arith);
        }
        s = s * 2;
        e = e - 1;
    }
    if s < 0x80_0000 {
        assert(s * 1 == s) by (nonlinear_arith);
        s
    } else {
        let r: u32 = (e + 1) * 0x80_0000 + (s - 0x80_0000);
        assert(r as nat / 0x80_0000 == e + 1);
        assert(r as nat % 0x80_0000 == s - 0x80_0000);
        r
    }
}

/// The single-precision pattern for the magnitude of the pattern `c` of another format.
pub fn widen(c: u32, mb: u32, shift: u32) -> (r: u32)
    requires
        1 <= mb <= 23,
        shift <= 253,
        shift + c as nat / pow2(mb as nat) <= 254,
    ensures
        r < F32_INF,
        mini(r as nat, 23) == scaled(c as nat, mb as nat, shift as nat),
{
    proof {
        lemma2_to64();
        lemma_pow2_pos(mb as nat);
        if mb < 23 {
            lemma_pow2_strictly_increases(mb as nat, 23);
        }
    }
    let p: u32 = power_of_two(mb) as u32;
    if c < p {
        return pack_f32(c, shift);
    }
    let e: u32 = c / p;
    proof {
        vstd::arithmetic::div_mod::lemma_fundamental_div_mod(c as int, p as int);
        assert(e >= 1) by (nonlinear_arith)
            requires
                c == p * e + c % p,
                c % p < p,
                c >= p,
                p > 0,
        ;
        lemma_pow2_adds((e - 1) as nat, shift as nat);
        let s = (c % p + p) as nat;
        let v = pow2((e - 1) as nat);
        let w = pow2(shift as nat);
        assert(s * (v * w) == (s * v) * w) by (nonlinear_arith);
    }
    pack_f32(c % p + p, e - 1 + shift)
}

/// The whole number nearest to `n / 2^s`, of two equally near ones the even one.
fn round_half_even(n: u64, s: u32) -> (r: u64)
    requires
        n < 0x8000_0000_0000_0000,
        1 <= s < 64,
    ensures
        ({
            let d = pow2(s as nat);
            let q = n as nat / d;
            let rem = n as nat % d;
            r == if 2 * rem > d || (2 * rem == d && q % 2 == 1) {
                q + 1
            } else {
                q
            }
        }),
{
    let d: u64 = power_of_two(s);
    let q: u64 = n / d;
    let rem: u64 = n % d;
    proof {
        assert(q <= n) by (nonlinear_arith)
            requires
                q == n / d,
                d > 0,
        ;
        lemma_pow2_unfold(s as nat);
    }
    if rem > d / 2 || (rem == d / 2 && q % 2 == 1) {
        q + 1
    } else {
        q
    }
}

/// What the rounding of a mantissa says of the patterns: with `n` steps of size `w`, of which `d`
/// make one step of the target, the rounded quotient is the nearest pattern.
proof fn lemma_rounding(
    x: nat,
    n: nat,
    d: nat,
    w: nat,
    lo: nat,
    up: bool,
    mb: nat,
    shift: nat,
    max: nat,
)
    requires
        d > 0,
        w > 0,
        x == n * w,
        scaled(lo, mb, shift) == (n / d) * d * w,
        scaled(lo + 1, mb, shift) == (n / d + 1) * d * w,
        lo % 2 == (n / d) % 2,
        up == (2 * (n % d) > d || (2 * (n % d) == d && (n / d) % 2 == 1)),
    ensures
        ({
            let c = if up {
                lo + 1
            } else {
                lo
            };
            nearest_even(
                x,
                if c <= max {
                    c
                } else {
                    max
                },
                mb,
                shift,
                max,
            )
        }),
{
    let q = n / d;
    let r = n % d;
    vstd::arithmetic::div_mod::lemma_fundamental_div_mod(n as int, d as int);
    assert(n == q * d + r && r < d) by (nonlinear_arith)
        requires
            n == d * q + r,
            r == n % d,
            d > 0,
    ;
    assert(n * w == q * d * w + r * w) by (nonlinear_arith)
        requires
            n == q * d + r,
    ;
    assert((q + 1) * d * w == q * d * w + d * w) by (nonlinear_arith);
    assert(r * w < d * w) by (nonlinear_arith)
        requires
            r < d,
            w > 0,
    ;
    assert(2 * r > d ==> 2 * (r * w) > d * w) by (nonlinear_arith)
        requires
            w > 0,
    ;
    assert(2 * r == d ==> 2 * (r * w) == d * w) by (nonlinear_arith);
    assert(2 * r < d ==> 2 * (r * w) < d * w) by (nonlinear_arith)
        requires
            w > 0,
    ;
    lemma_nearest_of_neighbours(
        x,
        lo,
        if up {
            lo + 1
        } else {
            lo
        },
        mb,
        shift,
        max,
    );
}

/// Rounding a magnitude that is normal in the target format.
proof fn lemma_normal(b: nat, sb: nat, mb: nat, shift: nat, max: nat, code: nat)
    requires
        1 <= mb < sb,
        shift + mb >= sb,
        b / pow2(sb) > shift + mb - sb,
        ({
            let d = pow2((sb - mb) as nat);
            let q = b / d;
            let rem = b % d;
            let c = if 2 * rem > d || (2 * rem == d && q % 2 == 1) {
                q + 1
            } else {
                q
            };
            let lo = c - (shift + mb - sb) * pow2(mb);
            code == if lo <= max {
                lo
            } else {
                max as int
            }
        }),
    ensures
        nearest_even(mini(b, sb), code, mb, shift, max),
{
    let p = pow2(mb);
    let d = pow2((sb - mb) as nat);
    let one = pow2(sb);
    let dd = (shift + mb - sb) as nat;
    let e = b / one;
    let m = b % one;
    lemma_pow2_pos(sb);
    lemma_pow2_pos(mb);
    lemma_pow2_pos((sb - mb) as nat);
    lemma_pow2_adds(mb, (sb - mb) as nat);
    assert(p * d == one);
    vstd::arithmetic::div_mod::lemma_fundamental_div_mod(b as int, one as int);
    assert(b == one * e + m && m < one);
    let top = m / d;
    let rem = m % d;
    vstd::arithmetic::div_mod::lemma_fundamental_div_mod(m as int, d as int);
    assert(m == d * top + rem && rem < d);
    assert(top < p) by (nonlinear_arith)
        requires
            m == d * top + rem,
            m < p * d,
            d > 0,
    ;
    // The quotient of the whole pattern: exponent and leading mantissa bits.
    let q = e * p + top;
    assert(b == q * d + rem) by (nonlinear_arith)
        requires
            b == one * e + m,
            p * d == one,
            m == d * top + rem,
            q == e * p + top,
    ;
    vstd::arithmetic::div_mod::lemma_fundamental_div_mod_converse(
        b as int,
        d as int,
        q as int,
        rem as int,
    );
    assert(b / d == q && b % d == rem);
    // The pattern below.
    let lo = ((e - dd) * p + top) as nat;
    assert((e - dd) * p == e * p - dd * p) by (nonlinear_arith)
        requires
            e >= dd,
    ;
    assert((e - dd) * p >= p) by (nonlinear_arith)
        requires
            e > dd,
            p > 0,
    ;
    assert(lo == q - dd * p);
    assert(p * (e - dd) == (e - dd) * p) by (nonlinear_arith);
    lemma_mini_value(lo, mb, (e - dd) as nat, top);
    // Both in units of the source's least value.
    let n = one + m;
    let w = pow2((e - 1) as nat);
    lemma_pow2_pos((e - 1) as nat);
    lemma_mini_value(b, sb, e, m);
    assert(mini(b, sb) == n * w);
    assert(n == (p + top) * d + rem) by (nonlinear_arith)
        requires
            n == one + m,
            p * d == one,
            m == d * top + rem,
    ;
    vstd::arithmetic::div_mod::lemma_fundamental_div_mod_converse(
        n as int,
        d as int,
        (p + top) as int,
        rem as int,
    );
    let v = pow2((e - dd - 1) as nat);
    lemma_pow2_pos((e - dd - 1) as nat);
    assert(mini(lo, mb) == (top + p) * v);
    lemma_pow2_adds((e - dd - 1) as nat, shift);
    lemma_pow2_adds((sb - mb) as nat, (e - 1) as nat);
    assert((e - dd - 1) + shift == (sb - mb) + (e - 1));
    assert(v * pow2(shift) == d * w);
    assert(scaled(lo, mb, shift) == (p + top) * d * w) by (nonlinear_arith)
        requires
            scaled(lo, mb, shift) == ((top + p) * v) * pow2(shift),
            v * pow2(shift) == d * w,
    ;
    lemma_mini_step(lo, mb);
    vstd::arithmetic::div_mod::lemma_fundamental_div_mod_converse(
        lo as int,
        p as int,
        e - dd,
        top as int,
    );
    assert(mini(lo + 1, mb) == (top + p) * v + v);
    assert(scaled(lo + 1, mb, shift) == (p + top + 1) * d * w) by (nonlinear_arith)
        requires
            scaled(lo + 1, mb, shift) == ((top + p) * v + v) * pow2(shift),
            v * pow2(shift) == d * w,
    ;
    // Whole binades do not change whether a pattern is even.
    lemma_pow2_unfold(mb);
    let h = pow2((mb - 1) as nat);
    assert(e * (2 * h) == 2 * (e * h)) by (nonlinear_arith);
    assert((e - dd) * (2 * h) == 2 * ((e - dd) * h)) by (nonlinear_arith);
    assert(q % 2 == top % 2 && lo % 2 == top % 2 && (p + top) % 2 == top % 2);
    let up = 2 * rem > d || (2 * rem == d && q % 2 == 1);
    lemma_rounding(mini(b, sb), n, d, w, lo, up, mb, shift, max);
}

/// Rounding a magnitude that is subnormal in the target format.
proof fn lemma_subnormal(x: nat, sig: nat, s: nat, mb: nat, shift: nat, max: nat, code: nat)
    requires
        1 <= mb,
        s <= shift,
        x == sig * pow2((shift - s) as nat),
        sig / pow2(s) < pow2(mb),
        ({
            let d = pow2(s);
            let q = sig / d;
            let rem = sig % d;
            let c = if 2 * rem > d || (2 * rem == d && q % 2 == 1) {
                q + 1
            } else {
                q
            };
            code == if c <= max {
                c
            } else {
                max
            }
        }),
    ensures
        nearest_even(x, code, mb, shift, max),
{
    let d = pow2(s);
    let w = pow2((shift - s) as nat);
    lemma_pow2_pos(s);
    lemma_pow2_pos((shift - s) as nat);
    lemma_pow2_adds(s, (shift - s) as nat);
    assert(d * w == pow2(shift));
    let q = sig / d;
    assert(q * d * w == q * (d * w)) by (nonlinear_arith);
    assert((q + 1) * d * w == (q + 1) * (d * w)) by (nonlinear_arith);
    lemma_mini_step(q, mb);
    let rem = sig % d;
    let up = 2 * rem > d || (2 * rem == d && q % 2 == 1);
    lemma_rounding(x, sig, d, w, q, up, mb, shift, max);
}

/// The pattern up to `max` that is nearest to the magnitude of the pattern `b` of a wider format
/// with `sb` mantissa bits; of two equally near ones the even one. `shift` says how many of the
/// wider format's least values, as a power of two, make one of the narrower format.
pub fn narrow_from(b: u64, sb: u32, mb: u32, shift: u32, max: u32) -> (r: u32)
    requires
        b < 0x8000_0000_0000_0000,
        1 <= mb < sb <= 52,
        sb < shift + mb,
        shift <= 2000,
    ensures
        nearest_even(mini(b as nat, sb as nat), r as nat, mb as nat, shift as nat, max as nat),
{
    proof {
        lemma2_to64();
        lemma2_to64_rest();
        lemma_pow2_pos(mb as nat);
        lemma_pow2_pos(sb as nat);
        lemma_pow2_strictly_increases(mb as nat, sb as nat);
        lemma_pow2_strictly_increases(sb as nat, 53);
    }
    let one: u64 = power_of_two(sb);
    let e: u64 = b / one;
    let m: u64 = b % one;
    let base: u32 = shift + mb - sb;
    proof {
        vstd::arithmetic::div_mod::lemma_fundamental_div_mod(b as int, one as int);
    }
    if e > base as u64 {
        let p: u64 = power_of_two(mb);
        let q: u64 = round_half_even(b, sb - mb);
        proof {
            let d = pow2((sb - mb) as nat);
            lemma_pow2_adds(mb as nat, (sb - mb) as nat);
            lemma_pow2_pos((sb - mb) as nat);
            let lo = b as nat / d;
            vstd::arithmetic::div_mod::lemma_fundamental_div_mod(b as int, d as int);
            assert(e * p <= lo) by (nonlinear_arith)
                requires
                    b == d * lo + b as nat % d,
                    b as nat % d < d,
                    b >= one * e,
                    p * d == one,
                    d > 0,
            ;
            assert(base * p <= e * p) by (nonlinear_arith)
                requires
                    base <= e,
            ;
            assert(lo <= b) by (nonlinear_arith)
                requires
                    b == d * lo + b as nat % d,
                    d >= 1,
            ;
        }
        let c: u64 = q - base as u64 * p;
        let r: u32 = if c <= max as u64 {
            c as u32
        } else {
            max
        };
        proof {
            lemma_normal(b as nat, sb as nat, mb as nat, shift as nat, max as nat, r as nat);
        }
        return r;
    }
    let sig: u64 = if e == 0 {
        m
    } else {
        m + one
    };
    let up: u32 = if e == 0 {
        0
    } else {
        (e - 1) as u32
    };
    let s: u32 = shift - up;
    let ghost x = mini(b as nat, sb as nat);
    assert(x == sig * pow2(up as nat)) by {
        if e == 0 {
            assert(b == m) by (nonlinear_arith)
                requires
                    b == one * e + m,
                    e == 0,
            ;
            assert(sig * 1 == sig) by (nonlinear_arith);
        } else {
            lemma_mini_value(b as nat, sb as nat, e as nat, m as nat);
        }
    }
    proof {
        // 2^s is above sig / 2^mb.
        lemma_pow2_adds(mb as nat, s as nat);
        lemma_pow2_unfold((sb + 1) as nat);
        assert(mb + s >= sb + 1);
        if mb + s > sb + 1 {
            lemma_pow2_strictly_increases((sb + 1) as nat, (mb + s) as nat);
        }
        lemma_pow2_pos(s as nat);
        let d = pow2(s as nat);
        let p = pow2(mb as nat);
        assert(sig as nat / d < p) by (nonlinear_arith)
            requires
                sig < p * d,
                d > 0,
        ;
    }
    if s > sb + 2 {
        proof {
            lemma_pow2_strictly_increases((sb + 2) as nat, s as nat);
            lemma_pow2_unfold((sb + 2) as nat);
            let d = pow2(s as nat);
            vstd::arithmetic::div_mod::lemma_fundamental_div_mod_converse(
                sig as int,
                d as int,
                0,
                sig as int,
            );
            lemma_subnormal(x, sig as nat, s as nat, mb as nat, shift as nat, max as nat, 0);
        }
        return 0;
    }
    let q: u64 = round_half_even(sig, s);
    let r: u32 = if q <= max as u64 {
        q as u32
    } else {
        max
    };
    proof {
        lemma_subnormal(x, sig as nat, s as nat, mb as nat, shift as nat, max as nat, r as nat);
    }
    r
}

/// The pattern up to `max` that is nearest to the magnitude of a finite single-precision pattern
/// `b`, which has no sign; of two equally near ones the even one.
pub fn narrow(b: u32, mb: u32, shift: u32, max: u32) -> (r: u32)
    requires
        b < F32_INF,
        1 <= mb <= 22,
        24 <= shift + mb,
        shift <= 200,
    ensures
        nearest_even(mini(b as nat, 23), r as nat, mb as nat, shift as nat, max as nat),
{
    narrow_from(b as u64, 23, mb, shift, max)
}

/// The single-precision pattern nearest to a whole number, of two equally near ones the even one.
pub fn integer_to_f32(n: u32) -> (r: u32)
    ensures
        r < F32_INF,
        nearest_even(n as nat * pow2(149), r as nat, 23, 0, F32_INF as nat),
{
    proof {
        lemma2_to64();
        lemma_pow2_pos(149);
    }
    let mut s: u32 = 0;
    let mut d: u32 = 1;
    while n / d >= 0x100_0000
        invariant
            s <= 8,
            d == pow2(s as nat),
            1 <= d <= 256,
            s > 0 ==> n / d >= 0x80_0000,
        decreases 8 - s,
    {
        proof {
            lemma_pow2_unfold((s + 1) as nat);
            lemma2_to64();
            let (x, y) = (n as int, d as int);
            assert(y < 256) by (nonlinear_arith)
                requires
                    x / y >= 0x100_0000,
                    x < 0x1_0000_0000,
                    y > 0,
            ;
            if s == 8 {
                assert(d == 256);
            }
            vstd::arithmetic::div_mod::lemma_div_denominator(x, y, 2);
            assert(x / (2 * y) >= 0x80_0000) by {
                assert(y * 2 == 2 * y);
            }
        }
        d = d * 2;
        s = s + 1;
        assert(n / d >= 0x80_0000);
    }
    if s == 0 {
        assert(n / 1 == n);
        let r: u32 = pack_f32(n, 149);
        proof {
            assert(pow2(0) == 1);
            assert(scaled(r as nat, 23, 0) == n as nat * pow2(149));
            lemma_exact_is_nearest(r as nat, 23, 0, F32_INF as nat);
        }
        return r;
    }
    let q: u32 = n / d;
    let rem: u32 = n % d;
    let lo: u32 = (s + 150) * 0x80_0000 + (q - 0x80_0000);
    let up: bool = 2 * rem > d || (2 * rem == d && q % 2 == 1);
    proof {
        let w = pow2(149);
        lemma_mini_value(lo as nat, 23, (s + 150) as nat, (q - 0x80_0000) as nat);
        lemma_pow2_adds(s as nat, 149);
        assert(mini(lo as nat, 23) == q * (d * w));
        lemma_mini_step(lo as nat, 23);
        assert(lo as nat / 0x80_0000 == s + 150);
        assert(mini((lo + 1) as nat, 23) == q * (d * w) + d * w);
        assert(q * d * w == q * (d * w)) by (nonlinear_arith);
        assert((q + 1) * d * w == q * (d * w) + d * w) by (nonlinear_arith);
        assert(scaled(lo as nat, 23, 0) == q * d * w);
        assert(scaled((lo + 1) as nat, 23, 0) == (q + 1) * d * w);
        lemma_rounding(
            n as nat * w,
            n as nat,
            d as nat,
            w,
            lo as nat,
            up,
            23,
            0,
            F32_INF as nat,
        );
    }
    if up {
        lo + 1
    } else {
        lo
    }
}

/// The magnitude of a pattern is nearest to that pattern.
proof fn lemma_exact_is_nearest(c: nat, mb: nat, shift: nat, max: nat)
    requires
        c <= max,
    ensures
        nearest_even(scaled(c, mb, shift), c, mb, shift, max),
{
    let x = scaled(c, mb, shift);
    assert forall|o: nat| o <= max && o != c implies apart(x, #[trigger] scaled(o, mb, shift))
        > 0 by {
        if o < c {
            lemma_scaled_increases(o, c, mb, shift);
        } else {
            lemma_scaled_increases(c, o, mb, shift);
        }
    }
}

/// `r` is the single-precision pattern of a half-precision pattern: the same number, infinity for
/// infinity, and what is no number with its leading mantissa bit set.
pub open spec fn half_widens(h: u16, r: u32) -> bool {
    let c = (h % 0x8000) as nat;
    let neg = h >= 0x8000;
    &&& f32_neg(r) == neg
    &&& c < 0x7c00 ==> f32_abs(r) < F32_INF && f32_mag(r) == scaled(c, 10, 125)
    &&& c == 0x7c00 ==> f32_abs(r) == F32_INF
    &&& c > 0x7c00 ==> f32_abs(r) == F32_INF + 0x40_0000 + (c % 0x200) * 0x2000
}

/// The single-precision pattern of a half-precision pattern.
pub fn widen_half(h: u16) -> (r: u32)
    ensures
        half_widens(h, r),
{
    let c: u32 = (h % 0x8000) as u32;
    let sign: u32 = if h >= 0x8000 {
        F32_SIGN
    } else {
        0
    };
    if c > 0x7c00 {
        return sign + F32_INF + 0x40_0000 + (c % 0x200) * 0x2000;
    }
    if c == 0x7c00 {
        return sign + F32_INF;
    }
    proof {
        lemma2_to64();
    }
    sign + widen(c, 10, 125)
}

/// `r` is the single-precision pattern of a pattern that has only its upper sixteen bits. What is
/// no number gets its leading mantissa bit set.
pub open spec fn bfloat_widens(h: u16, r: u32) -> bool {
    if h % 0x8000 > 0x7f80 && h % 0x80 < 0x40 {
        r == (h + 0x40) * 0x1_0000
    } else {
        r == h * 0x1_0000
    }
}

/// The single-precision pattern of a pattern that has only its upper sixteen bits.
pub fn widen_bfloat(h: u16) -> (r: u32)
    ensures
        bfloat_widens(h, r),
{
    if h % 0x8000 > 0x7f80 && h % 0x80 < 0x40 {
        (h as u32 + 0x40) * 0x1_0000
    } else {
        h as u32 * 0x1_0000
    }
}

/// `r` is the single-precision pattern nearest to a double-precision pattern; beyond the greatest
/// finite value by half a step or more, infinity. What is no number stays none.
pub open spec fn double_narrows(d: u64, r: u32) -> bool {
    let a = (d % 0x8000_0000_0000_0000) as nat;
    &&& f32_neg(r) == (d >= 0x8000_0000_0000_0000)
    &&& a <= 0x7ff0_0000_0000_0000 ==> nearest_even(
        mini(a, 52),
        f32_abs(r) as nat,
        23,
        925,
        F32_INF as nat,
    )
    &&& a > 0x7ff0_0000_0000_0000 ==> f32_abs(r) == F32_INF + 0x40_0000 + (a % 0x8_0000_0000_0000)
        / 0x2000_0000
}

/// The single-precision pattern nearest to a double-precision pattern.
pub fn narrow_double(d: u64) -> (r: u32)
    ensures
        double_narrows(d, r),
{
    let a: u64 = d % 0x8000_0000_0000_0000;
    let sign: u32 = if d >= 0x8000_0000_0000_0000 {
        F32_SIGN
    } else {
        0
    };
    if a > 0x7ff0_0000_0000_0000 {
        return sign + F32_INF + 0x40_0000 + ((a % 0x8_0000_0000_0000) / 0x2000_0000) as u32;
    }
    sign + narrow_from(a, 52, 23, 925, F32_INF)
}

} // verus!
