//! Numbers rounded as double-precision arithmetic rounds them.
use vstd::arithmetic::power2::*;
use vstd::prelude::*;

verus! {

/// The whole number nearest to `n / d`; of two that are as near, the even one.
pub open spec fn half_even(n: nat, d: nat) -> nat {
    let q = n / d;
    let r = n % d;
    if 2 * r > d || (2 * r == d && q % 2 == 1) {
        q + 1
    } else {
        q
    }
}

/// How many binary digits a number has.
pub open spec fn bit_length(n: nat) -> nat
    decreases n,
{
    if n == 0 {
        0
    } else {
        1 + bit_length(n / 2)
    }
}

/// The whole part of the double-precision number nearest to `n / d`, for numbers of any size.
pub open spec fn double_floor(n: nat, d: nat) -> nat {
    let k = bit_length(n / d);
    if k > 53 {
        half_even(n, d * pow2((k - 53) as nat)) * pow2((k - 53) as nat)
    } else {
        half_even(n * pow2((53 - k) as nat), d) / pow2((53 - k) as nat)
    }
}

/// A number lies between the powers of two that its length names.
pub proof fn lemma_bit_length(n: nat)
    ensures
        n < pow2(bit_length(n)),
        n > 0 ==> bit_length(n) > 0 && pow2((bit_length(n) - 1) as nat) <= n,
    decreases n,
{
    if n > 0 {
        lemma_bit_length(n / 2);
        let k = bit_length(n / 2);
        lemma_pow2_unfold(k + 1);
        if n / 2 > 0 {
            lemma_pow2_unfold(k);
        } else {
            lemma2_to64();
        }
    } else {
        lemma2_to64();
    }
}

/// The length of a number is known from the powers of two between which it lies.
pub proof fn lemma_bit_length_is(n: nat, k: nat)
    requires
        n < pow2(k),
        k > 0 ==> pow2((k - 1) as nat) <= n,
    ensures
        bit_length(n) == k,
    decreases k,
{
    lemma2_to64();
    if k > 0 {
        lemma_pow2_pos((k - 1) as nat);
        lemma_pow2_unfold(k);
        if k > 1 {
            lemma_pow2_unfold((k - 1) as nat);
        }
        lemma_bit_length_is(n / 2, (k - 1) as nat);
    }
}

/// Rounding gives the quotient or the number behind it.
proof fn lemma_half_even(n: nat, d: nat)
    requires
        d > 0,
    ensures
        n / d <= half_even(n, d) <= n / d + 1,
{
}

/// A whole number of at most 53 binary digits is a double-precision number.
pub proof fn lemma_small_is_exact(n: nat)
    requires
        bit_length(n) <= 53,
    ensures
        double_floor(n, 1) == n,
{
    let p = pow2((53 - bit_length(n)) as nat);
    lemma_pow2_pos((53 - bit_length(n)) as nat);
    let m = n * p;
    assert(m / 1 == m && m % 1 == 0);
    assert(half_even(m, 1) == m);
    assert(m / p == n) by (nonlinear_arith)
        requires
            m == n * p,
            p > 0,
    ;
}

/// A number that is at least a power of two is not rounded below it.
pub proof fn lemma_keeps_bound(n: nat, d: nat)
    requires
        d > 0,
        n / d >= 0x1_0000_0000_0000_0000,
    ensures
        double_floor(n, d) >= 0x1_0000_0000_0000_0000,
{
    let i = n / d;
    let k = bit_length(i);
    lemma2_to64();
    lemma_bit_length(i);
    if k <= 64 {
        if k < 64 {
            lemma_pow2_strictly_increases(k, 64);
        }
    }
    let s = (k - 53) as nat;
    let p = pow2(s);
    lemma_pow2_pos(s);
    lemma_pow2_adds(52, s);
    assert(pow2(52) * p <= i);
    vstd::arithmetic::div_mod::lemma_div_denominator(n as int, d as int, p as int);
    assert(n / (d * p) == i / p);
    assert(i / p >= pow2(52)) by (nonlinear_arith)
        requires
            pow2(52) * p <= i,
            p > 0,
    ;
    assert(d * p > 0) by (nonlinear_arith)
        requires
            d > 0,
            p > 0,
    ;
    lemma_half_even(n, d * p);
    let h = half_even(n, d * p);
    assert(h * p >= pow2(52) * p) by (nonlinear_arith)
        requires
            h >= pow2(52),
    ;
    if k > 65 {
        lemma_pow2_strictly_increases(64, (k - 1) as nat);
    }
    assert((52 + s) as nat == (k - 1) as nat);
}

/// The length of `n`, and for a long number the power of two by which 53 digits fall short.
fn excess(n: u64) -> (r: (u64, u64))
    ensures
        r.1 == pow2(r.0 as nat),
        r.0 <= 11,
        bit_length(n as nat) <= 53 ==> r.0 == 0,
        bit_length(n as nat) > 53 ==> r.0 == bit_length(n as nat) - 53,
{
    let mut s: u64 = 0;
    let mut p: u64 = 1;
    let mut q: u64 = n;
    proof {
        lemma2_to64();
        lemma2_to64_rest();
    }
    while q >= 0x20_0000_0000_0000
        invariant
            p == pow2(s as nat),
            s <= 11,
            q < pow2((64 - s) as nat),
            bit_length(n as nat) == bit_length(q as nat) + s,
            pow2(53) == 0x20_0000_0000_0000,
            s > 0 ==> q >= 0x10_0000_0000_0000,
        decreases q,
    {
        proof {
            if s >= 11 {
                assert((64 - s) as nat == 53);
            }
            lemma_pow2_unfold((s + 1) as nat);
            lemma_pow2_unfold((64 - s) as nat);
            lemma2_to64();
            lemma2_to64_rest();
            vstd::arithmetic::power2::lemma_pow2_strictly_increases(s as nat, 12);
        }
        s = s + 1;
        p = p * 2;
        q = q / 2;
    }
    proof {
        lemma2_to64();
        lemma2_to64_rest();
        lemma_bit_length(q as nat);
        if s > 0 {
            lemma_bit_length_is(q as nat, 53);
        } else if bit_length(q as nat) > 53 {
            if bit_length(q as nat) > 54 {
                lemma_pow2_strictly_increases(53, (bit_length(q as nat) - 1) as nat);
            }
        }
    }
    (s, p)
}

/// A whole number in double precision.
pub fn to_double(n: u64) -> (r: u128)
    ensures
        r == double_floor(n as nat, 1),
        r <= 0x1_0000_0000_0000_0000,
        n < 0x20_0000_0000_0000 ==> r == n,
{
    let (s, p) = excess(n);
    proof {
        lemma2_to64();
        lemma2_to64_rest();
        lemma_bit_length(n as nat);
        lemma_pow2_pos(s as nat);
        if s > 0 {
            assert(pow2((bit_length(n as nat) - 1) as nat) >= pow2(53)) by {
                if bit_length(n as nat) > 54 {
                    lemma_pow2_strictly_increases(53, (bit_length(n as nat) - 1) as nat);
                }
            }
        }
    }
    if s == 0 {
        proof {
            lemma_small_is_exact(n as nat);
        }
        return n as u128;
    }
    let q: u64 = n / p;
    let low: u64 = n % p;
    let up: bool = low > p - low || (low == p - low && q % 2 == 1);
    let m: u128 = if up {
        q as u128 + 1
    } else {
        q as u128
    };
    proof {
        assert(n as nat / 1 == n);
        assert(m == half_even(n as nat, 1 * p as nat));
        vstd::arithmetic::div_mod::lemma_fundamental_div_mod(n as int, p as int);
        let k = bit_length(n as nat);
        if k > 64 {
            lemma_pow2_strictly_increases(64, k);
            lemma_pow2_strictly_increases(63, (k - 1) as nat);
            if k > 65 {
                lemma_pow2_strictly_increases(64, (k - 1) as nat);
            }
        }
        assert(k <= 64);
        lemma_pow2_adds(53, s as nat);
        if k < 64 {
            lemma_pow2_strictly_increases(k, 64);
        }
        assert(q < pow2(53)) by (nonlinear_arith)
            requires
                n == p * q + low,
                n < pow2(53) * p,
                p > 0,
                low >= 0,
        ;
        assert(m * p <= pow2(53) * p) by (nonlinear_arith)
            requires
                m <= pow2(53),
        ;
    }
    let r: u128 = m * p as u128;
    r
}

/// A power of ten.
pub open spec fn pow10(n: nat) -> nat
    decreases n,
{
    if n == 0 {
        1
    } else {
        10 * pow10((n - 1) as nat)
    }
}

/// Decimal digits as numbers.
pub open spec fn are_digits(v: Seq<u8>) -> bool {
    forall|i: int| 0 <= i < v.len() ==> #[trigger] v[i] < 10
}

/// The number of decimal digits, the first of which weighs most.
pub open spec fn value_of(v: Seq<u8>) -> nat
    decreases v.len(),
{
    if v.len() == 0 {
        0
    } else {
        value_of(v.drop_last()) * 10 + v.last() as nat
    }
}

/// So many digits make a number below that power of ten.
proof fn lemma_below(v: Seq<u8>)
    requires
        are_digits(v),
    ensures
        value_of(v) < pow10(v.len()),
    decreases v.len(),
{
    if v.len() > 0 {
        assert(v[v.len() - 1] < 10);
        assert forall|i: int| 0 <= i < v.len() - 1 implies #[trigger] v.drop_last()[i] < 10 by {
            assert(v[i] < 10);
        }
        lemma_below(v.drop_last());
    }
}

/// A number of digits in two parts.
proof fn lemma_split(v: Seq<u8>, k: int)
    requires
        0 <= k <= v.len(),
    ensures
        value_of(v) == value_of(v.subrange(0, k)) * pow10((v.len() - k) as nat) + value_of(
            v.subrange(k, v.len() as int),
        ),
    decreases v.len() - k,
{
    let n = v.len() as int;
    if k == n {
        assert(v.subrange(0, n) =~= v);
        assert(v.subrange(n, n) =~= Seq::empty());
        assert(value_of(v) * pow10(0) == value_of(v)) by (nonlinear_arith)
            requires
                pow10(0) == 1,
        ;
    } else {
        lemma_split(v.drop_last(), k);
        let d = v.drop_last();
        assert(d.subrange(0, k) =~= v.subrange(0, k));
        assert(v.subrange(k, n).drop_last() =~= d.subrange(k, n - 1));
        assert(v.subrange(k, n).last() == v.last());
        assert(pow10((n - k) as nat) == 10 * pow10((n - 1 - k) as nat));
        let a = value_of(v.subrange(0, k));
        let p = pow10((n - 1 - k) as nat);
        assert(10 * (a * p) == a * (10 * p)) by (nonlinear_arith);
    }
}

/// Doubles a fraction of decimal digits; the result says whether one whole came out.
fn double_digits(v: &mut Vec<u8>) -> (carry: u64)
    requires
        are_digits(old(v)@),
    ensures
        final(v)@.len() == old(v)@.len(),
        are_digits(final(v)@),
        carry <= 1,
        2 * value_of(old(v)@) == carry * pow10(old(v)@.len()) + value_of(final(v)@),
{
    let n: usize = v.len();
    let ghost start = v@;
    let mut c: u8 = 0;
    let mut i: usize = n;
    proof {
        assert(start.subrange(n as int, n as int) =~= Seq::empty());
        assert(v@.subrange(n as int, n as int) =~= Seq::empty());
    }
    while i > 0
        invariant
            i <= n == v@.len() == start.len(),
            c <= 1,
            are_digits(v@),
            are_digits(start),
            forall|j: int| 0 <= j < i ==> #[trigger] v@[j] == start[j],
            2 * value_of(start.subrange(i as int, n as int)) == c * pow10((n - i) as nat)
                + value_of(v@.subrange(i as int, n as int)),
        decreases i,
    {
        i = i - 1;
        let ghost before = v@;
        let d: u8 = v[i];
        assert(start[i as int] < 10);
        let x: u8 = 2 * d + c;
        let ghost old_c = c;
        v.set(i, x % 10);
        c = x / 10;
        proof {
            let a = start.subrange(i as int, n as int);
            let b = v@.subrange(i as int, n as int);
            let p = pow10((n - i - 1) as nat);
            lemma_split(a, 1);
            lemma_split(b, 1);
            assert(a.subrange(1, a.len() as int) =~= start.subrange(i + 1, n as int));
            assert(b.subrange(1, b.len() as int) =~= before.subrange(i + 1, n as int));
            assert(a.subrange(0, 1).drop_last() =~= Seq::empty());
            assert(b.subrange(0, 1).drop_last() =~= Seq::empty());
            assert(value_of(a.subrange(0, 1)) == d) by {
                assert(a.subrange(0, 1).last() == d);
                assert(value_of(a.subrange(0, 1).drop_last()) == 0);
            }
            assert(value_of(b.subrange(0, 1)) == x % 10) by {
                assert(b.subrange(0, 1).last() == x % 10);
                assert(value_of(b.subrange(0, 1).drop_last()) == 0);
            }
            assert(pow10((n - i) as nat) == 10 * p);
            assert(2 * (d * p) + old_c * p == c * (10 * p) + (x % 10) * p) by (nonlinear_arith)
                requires
                    2 * d + old_c == 10 * c + x % 10,
            ;
        }
    }
    proof {
        assert(start.subrange(0, n as int) =~= start);
        assert(v@.subrange(0, n as int) =~= v@);
    }
    c as u64
}

/// Whether all digits are zero.
fn is_zero(v: &[u8]) -> (r: bool)
    requires
        are_digits(v@),
    ensures
        r == (value_of(v@) == 0),
{
    let n: usize = v.len();
    let mut i: usize = 0;
    assert(v@.subrange(0, 0) =~= Seq::empty());
    while i < n
        invariant
            i <= n == v@.len(),
            value_of(v@.subrange(0, i as int)) == 0,
        decreases n - i,
    {
        let ghost longer = v@.subrange(0, i + 1);
        assert(longer.drop_last() =~= v@.subrange(0, i as int));
        if v[i] != 0 {
            proof {
                lemma_split(v@, i + 1);
                lemma_pow10_pos((n - i - 1) as nat);
                let a = value_of(longer);
                let p = pow10((n - i - 1) as nat);
                assert(a * p > 0) by (nonlinear_arith)
                    requires
                        a > 0,
                        p > 0,
                ;
            }
            return false;
        }
        i = i + 1;
    }
    assert(v@.subrange(0, n as int) =~= v@);
    true
}

/// Powers of ten are positive.
pub proof fn lemma_pow10_pos(n: nat)
    ensures
        pow10(n) > 0,
    decreases n,
{
    if n > 0 {
        lemma_pow10_pos((n - 1) as nat);
    }
}

/// How a number with more than 53 binary digits and a fraction behind it is rounded.
proof fn lemma_round_long(i: nat, f: nat, den: nat, p: nat, half: nat)
    requires
        f < den,
        p == 2 * half,
        half > 0,
    ensures
        half_even(i * den + f, den * p) == if i % p > half || (i % p == half && (f > 0 || i / p % 2
            == 1)) {
            i / p + 1
        } else {
            i / p
        },
{
    let n = i * den + f;
    let d = den * p;
    let q = i / p;
    let low = i % p;
    vstd::arithmetic::div_mod::lemma_fundamental_div_mod(i as int, p as int);
    assert(n == q * d + (low * den + f)) by (nonlinear_arith)
        requires
            n == i * den + f,
            i == p * q + low,
            d == den * p,
    ;
    assert(low * den + f < d) by (nonlinear_arith)
        requires
            low < p,
            f < den,
            d == den * p,
    ;
    vstd::arithmetic::div_mod::lemma_fundamental_div_mod_converse(
        n as int,
        d as int,
        q as int,
        (low * den + f) as int,
    );
    assert(d == 2 * (half * den)) by (nonlinear_arith)
        requires
            d == den * p,
            p == 2 * half,
    ;
    if low > half {
        assert(low * den >= half * den + den) by (nonlinear_arith)
            requires
                low >= half + 1,
        ;
    } else if low < half {
        assert(low * den + den <= half * den) by (nonlinear_arith)
            requires
                low + 1 <= half,
        ;
    }
}

/// How a number with at most 53 binary digits and a fraction behind it is rounded: `c` are the
/// binary digits of the fraction that fit, `d` is the next one.
proof fn lemma_round_short(
    i: nat,
    f: nat,
    den: nat,
    p: nat,
    c: nat,
    rem: nat,
    d: nat,
    w: nat,
)
    requires
        f < den,
        c < p,
        f * p == c * den + rem,
        rem < den,
        d <= 1,
        2 * rem == d * den + w,
        w < den,
    ensures
        half_even((i * den + f) * p, den) / p == if c == p - 1 && d == 1 && (w > 0 || (i * p + c)
            % 2 == 1) {
            i + 1
        } else {
            i
        },
{
    let n = (i * den + f) * p;
    let q = i * p + c;
    assert(n == q * den + rem) by (nonlinear_arith)
        requires
            n == (i * den + f) * p,
            q == i * p + c,
            f * p == c * den + rem,
    ;
    vstd::arithmetic::div_mod::lemma_fundamental_div_mod_converse(
        n as int,
        den as int,
        q as int,
        rem as int,
    );
    let h = half_even(n, den);
    assert(d == 0 || d == 1);
    if h == q + 1 && c == p - 1 {
        assert(h == (i + 1) * p + 0) by (nonlinear_arith)
            requires
                h == i * p + c + 1,
                c == p - 1,
        ;
        vstd::arithmetic::div_mod::lemma_fundamental_div_mod_converse(
            h as int,
            p as int,
            (i + 1) as int,
            0,
        );
    } else {
        vstd::arithmetic::div_mod::lemma_fundamental_div_mod_converse(
            h as int,
            p as int,
            i as int,
            h - i * p,
        );
    }
}

/// A whole number with a fraction behind it, in double precision: its whole part.
fn round_mixed(i: u64, frac: Vec<u8>) -> (r: u128)
    requires
        are_digits(frac@),
    ensures
        r == double_floor(
            i as nat * pow10(frac@.len()) + value_of(frac@),
            pow10(frac@.len()),
        ),
{
    let ghost den = pow10(frac@.len());
    let ghost f = value_of(frac@);
    let ghost num = i as nat * den + f;
    let (s, p) = excess(i);
    proof {
        lemma_below(frac@);
        lemma_pow10_pos(frac@.len());
        vstd::arithmetic::div_mod::lemma_fundamental_div_mod_converse(
            num as int,
            den as int,
            i as int,
            f as int,
        );
        lemma_pow2_pos(s as nat);
        lemma2_to64();
        lemma2_to64_rest();
    }
    if s > 0 {
        let q: u64 = i / p;
        let low: u64 = i % p;
        let half: u64 = p / 2;
        let some: bool = !is_zero(frac.as_slice());
        let up: bool = low > half || (low == half && (some || q % 2 == 1));
        let m: u128 = if up {
            q as u128 + 1
        } else {
            q as u128
        };
        proof {
            lemma_pow2_unfold(s as nat);
            lemma_round_long(i as nat, f, den, p as nat, half as nat);
            assert(m * p <= u128::MAX) by (nonlinear_arith)
                requires
                    m <= 0x1_0000_0000_0000_0000,
                    p <= 0x1_0000_0000_0000_0000 - 1,
            ;
        }
        return m * p as u128;
    }
    let mut len: u64 = 0;
    let mut rest: u64 = i;
    while rest > 0
        invariant
            bit_length(i as nat) == len + bit_length(rest as nat),
            bit_length(i as nat) <= 53,
        decreases rest,
    {
        rest = rest / 2;
        len = len + 1;
    }
    let t: u64 = 53 - len;
    let mut v: Vec<u8> = frac;
    let mut c: u64 = 0;
    let mut full: u64 = 1;
    let mut j: u64 = 0;
    proof {
        lemma2_to64();
    }
    while j < t
        invariant
            j <= t <= 53,
            full == pow2(j as nat),
            c < full,
            full <= 0x20_0000_0000_0000,
            are_digits(v@),
            v@.len() == frac@.len(),
            den == pow10(frac@.len()),
            f * pow2(j as nat) == c * den + value_of(v@),
        decreases t - j,
    {
        let ghost had = value_of(v@);
        let ghost old_c = c;
        let d: u64 = double_digits(&mut v);
        c = 2 * c + d;
        full = 2 * full;
        proof {
            lemma_pow2_unfold((j + 1) as nat);
            let p0 = pow2(j as nat);
            assert(f * (2 * p0) == 2 * (f * p0)) by (nonlinear_arith);
            assert((2 * old_c + d) * den == 2 * (old_c * den) + d * den) by (nonlinear_arith);
            lemma2_to64();
            lemma2_to64_rest();
            if j + 1 < 53 {
                lemma_pow2_strictly_increases((j + 1) as nat, 53);
            }
        }
        j = j + 1;
    }
    let ghost rem = value_of(v@);
    let d: u64 = double_digits(&mut v);
    let some: bool = !is_zero(v.as_slice());
    let odd: bool = if t == 0 {
        i % 2 == 1
    } else {
        true
    };
    let up: bool = c == full - 1 && d == 1 && (some || odd);
    proof {
        lemma_below(v@);
        lemma_round_short(
            i as nat,
            f,
            den,
            full as nat,
            c as nat,
            rem,
            d as nat,
            value_of(v@),
        );
        if t > 0 {
            lemma_pow2_unfold(t as nat);
            let half = pow2((t - 1) as nat);
            assert(i * full == 2 * (i * half)) by (nonlinear_arith)
                requires
                    full == 2 * half,
            ;
            assert(c == full - 1 ==> (i * full + c) % 2 == 1);
        } else {
            assert(i * full == i) by (nonlinear_arith)
                requires
                    full == 1,
            ;
        }
        assert(bit_length(num / den) == len);
        assert(double_floor(num, den) == half_even(num * pow2(t as nat), den) / pow2(t as nat));
    }
    if up {
        i as u128 + 1
    } else {
        i as u128
    }
}

/// A number, or the greatest 64-bit number where it is above that.
pub open spec fn clamped(n: nat) -> u64 {
    if n > u64::MAX {
        u64::MAX
    } else {
        n as u64
    }
}

/// The number of decimal digits, where it fits in 64 bits.
fn whole_of(v: &[u8]) -> (r: Option<u64>)
    requires
        are_digits(v@),
    ensures
        match r {
            Some(n) => n == value_of(v@),
            None => value_of(v@) > u64::MAX,
        },
{
    let n: usize = v.len();
    let mut x: u64 = 0;
    let mut i: usize = 0;
    assert(v@.subrange(0, 0) =~= Seq::empty());
    while i < n
        invariant
            i <= n == v@.len(),
            are_digits(v@),
            x == value_of(v@.subrange(0, i as int)),
        decreases n - i,
    {
        let ghost longer = v@.subrange(0, i + 1);
        assert(longer.drop_last() =~= v@.subrange(0, i as int));
        assert(v@[i as int] < 10);
        let y: u128 = x as u128 * 10 + v[i] as u128;
        if y > u64::MAX as u128 {
            proof {
                lemma_split(v@, i + 1);
                lemma_pow10_pos((n - i - 1) as nat);
                let p = pow10((n - i - 1) as nat);
                assert(y * p >= y) by (nonlinear_arith)
                    requires
                        p >= 1,
                ;
            }
            return None;
        }
        x = y as u64;
        i = i + 1;
    }
    assert(v@.subrange(0, n as int) =~= v@);
    Some(x)
}

/// Doubling further keeps a bound.
proof fn lemma_still_above(n: nat, den: nat, j: nat, k: nat)
    requires
        den > 0,
        j <= k,
        n * pow2(j) >= 0x1_0000_0000_0000_0000 * den,
    ensures
        n * pow2(k) / den >= 0x1_0000_0000_0000_0000,
{
    lemma_pow2_adds(j, (k - j) as nat);
    lemma_pow2_pos((k - j) as nat);
    let a = n * pow2(j);
    let b = pow2((k - j) as nat);
    let m = n * pow2(k);
    assert(m == a * b) by (nonlinear_arith)
        requires
            a == n * pow2(j),
            pow2(k) == pow2(j) * b,
            m == n * pow2(k),
    ;
    assert(m >= a) by (nonlinear_arith)
        requires
            m == a * b,
            b >= 1,
    ;
    assert(m / den >= 0x1_0000_0000_0000_0000) by (nonlinear_arith)
        requires
            m >= 0x1_0000_0000_0000_0000 * den,
            den > 0,
    ;
}

/// A decimal number, by the digits before and behind its dot, times a power of two in double
/// precision: its whole part, or the greatest 64-bit number where it is above that.
pub fn scaled_floor(whole: &[u8], part: Vec<u8>, k: u64) -> (r: u64)
    requires
        are_digits(whole@),
        are_digits(part@),
    ensures
        r == clamped(
            double_floor(
                (value_of(whole@) * pow10(part@.len()) + value_of(part@)) * pow2(k as nat),
                pow10(part@.len()),
            ),
        ),
{
    let ghost den = pow10(part@.len());
    let ghost n = value_of(whole@) * den + value_of(part@);
    proof {
        lemma_pow10_pos(part@.len());
        lemma2_to64();
    }
    let mut i: u64 = match whole_of(whole) {
        Some(x) => x,
        None => {
            proof {
                let x = value_of(whole@);
                assert(n * 1 >= 0x1_0000_0000_0000_0000 * den) by (nonlinear_arith)
                    requires
                        n == x * den + value_of(part@),
                        x >= 0x1_0000_0000_0000_0000,
                ;
                lemma_still_above(n, den, 0, k as nat);
                lemma_keeps_bound(n * pow2(k as nat), den);
            }
            return u64::MAX;
        },
    };
    let mut v: Vec<u8> = part;
    let mut j: u64 = 0;
    while j < k
        invariant
            j <= k,
            den > 0,
            den == pow10(part@.len()),
            v@.len() == part@.len(),
            are_digits(v@),
            n * pow2(j as nat) == i * den + value_of(v@),
            n == value_of(whole@) * den + value_of(part@),
        decreases k - j,
    {
        let ghost had = value_of(v@);
        let d: u64 = double_digits(&mut v);
        let x: u128 = 2 * (i as u128) + d as u128;
        proof {
            lemma_pow2_unfold((j + 1) as nat);
            let p0 = pow2(j as nat);
            assert(n * (2 * p0) == 2 * (n * p0)) by (nonlinear_arith);
            assert(x * den == 2 * (i * den) + d * den) by (nonlinear_arith)
                requires
                    x == 2 * i + d,
            ;
        }
        if x > u64::MAX as u128 {
            proof {
                assert(x * den >= 0x1_0000_0000_0000_0000 * den) by (nonlinear_arith)
                    requires
                        x >= 0x1_0000_0000_0000_0000,
                ;
                lemma_still_above(n, den, (j + 1) as nat, k as nat);
                lemma_keeps_bound(n * pow2(k as nat), den);
            }
            assert(clamped(double_floor(n * pow2(k as nat), den)) == u64::MAX);
            return u64::MAX;
        }
        i = x as u64;
        j = j + 1;
    }
    let r: u128 = round_mixed(i, v);
    if r > u64::MAX as u128 {
        u64::MAX
    } else {
        r as u64
    }
}

} // verus!
