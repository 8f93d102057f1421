//! What comparisons of distributions promise.
use vstd::arithmetic::power2::*;
use vstd::prelude::*;
use crate::floats;
use crate::kl;
use crate::kl::{argmax, places_in, top1_agrees, unstored_ids, KlAccumulator, KlRanks};
use crate::minifloat;

verus! {

/// Of numbers above minus infinity the preferred place has the greatest, and it is the first of
/// several.
pub proof fn law_greatest_is_preferred(v: &[u32], r: usize, i: int)
    requires
        call_ensures(argmax, (v,), r),
        0 <= i < v@.len(),
        forall|j: int|
            0 <= j < v@.len() ==> !floats::nan(#[trigger] v@[j]) && floats::above(
                v@[j],
                0xff80_0000,
            ),
    ensures
        r < v@.len(),
        !floats::above(v@[i], v@[r as int]),
        i < r ==> floats::above(v@[r as int], v@[i]),
{
    kl::law_best_is_greatest(v@, i);
    assert(!floats::nan(v@[i]) && !floats::nan(v@[r as int]));
}

/// Two rows agree where they prefer one place.
pub proof fn law_agreement(a: &[u32], b: &[u32], x: usize, y: usize, r: bool)
    requires
        call_ensures(argmax, (a,), x),
        call_ensures(argmax, (b,), y),
        call_ensures(top1_agrees, (a, b), r),
    ensures
        r <==> x == y,
{
}

/// Every id of one row is found in the other at its first place, if it stands there at all.
pub proof fn law_ids_are_found(ids: &[u32], among: &[u32], r: Vec<Option<usize>>, i: int, k: int)
    requires
        call_ensures(places_in, (ids, among), r),
        0 <= i < ids@.len(),
        0 <= k < among@.len(),
    ensures
        r@.len() == ids@.len(),
        r@[i] is None ==> among@[k] != ids@[i],
        r@[i] matches Some(j) ==> j < among@.len() && among@[j as int] == ids@[i] && (k < j
            ==> among@[k] != ids@[i]),
{
}

/// The mass that a row does not store is shared by the ids that it does not store; there is one
/// share at least.
pub proof fn law_shares_of_what_is_not_stored(vocab: usize, stored: usize, r: usize)
    requires
        call_ensures(unstored_ids, (vocab, stored), r),
    ensures
        stored < vocab ==> r + stored == vocab,
        stored >= vocab ==> r == 1,
{
}

/// The place is the nearest to so many hundredths of the way, and the later one of two that are as
/// near.
pub open spec fn nearest_place(n: nat, p: int, place: int) -> bool {
    &&& 0 <= place < n
    &&& 100 * place <= p * (n - 1) + 50
    &&& p * (n - 1) < 100 * place + 50
}

/// With the divergences in ascending order, the median, the ninetieth and the ninety-ninth hundredth
/// stand at the nearest places to half, nine tenths and ninety-nine hundredths of the way from the
/// first to the last.
pub proof fn law_quantiles_stand_at_their_places(
    p: Seq<(u64, bool)>,
    a: &KlAccumulator,
    r: KlRanks,
    s: Seq<u64>,
    m: int,
    q: int,
    t: int,
)
    requires
        a.holds(p),
        forall|i: int| 0 <= i < a.values@.len() ==> !kl::nan64(#[trigger] a.values@[i]),
        call_ensures(KlAccumulator::finish, (a,), r),
        s.to_multiset() == kl::values_of(p).to_multiset(),
        kl::ascending(s),
        p.len() > 0,
        nearest_place(p.len(), 50, m),
        nearest_place(p.len(), 90, q),
        nearest_place(p.len(), 99, t),
    ensures
        r.n == p.len(),
        kl::same_number(r.median, s[m]),
        kl::same_number(r.p90, s[q]),
        kl::same_number(r.p99, s[t]),
        kl::same_number(r.max, s[s.len() - 1]),
{
    kl::law_finish_reads_the_ordered_values(p, *a, r, s);
    let n = p.len();
    assert(kl::quantile_place(n, 50) == m);
    assert(kl::quantile_place(n, 90) == q);
    assert(kl::quantile_place(n, 99) == t);
}

/// Numbers are told apart and ordered by their bits: the sign is the top bit, a pattern above that
/// of infinity is no number, and both zeros are one number.
pub proof fn law_order_of_numbers(x: u32, y: u32, above: bool, no_number: bool)
    requires
        call_ensures(floats::is_above, (x, y), above),
        call_ensures(floats::is_nan, (x,), no_number),
    ensures
        no_number <==> x % 0x8000_0000 > 0x7f80_0000,
        x <= 0x7f80_0000 && y <= 0x7f80_0000 ==> (above <==> x > y),
        x <= 0x7f80_0000 && 0x8000_0000 < y <= 0xff80_0000 ==> above,
        0x8000_0000 <= x <= 0xff80_0000 && 0x8000_0000 <= y <= 0xff80_0000 ==> (above <==> x < y),
        0x8000_0000 <= x && y < 0x8000_0000 ==> !above,
        x == 0 && y == 0x8000_0000 ==> !above,
        x % 0x8000_0000 > 0x7f80_0000 || y % 0x8000_0000 > 0x7f80_0000 ==> !above,
{
}

/// Bits are no finite number where all bits of the exponent are set, and no positive one where the
/// sign is set or all bits are zero.
pub proof fn law_finite_and_positive_numbers(x: u32, f: bool, p: bool)
    requires
        call_ensures(floats::is_not_finite, (x,), f),
        call_ensures(floats::is_not_positive, (x,), p),
    ensures
        f <==> x % 0x8000_0000 >= 0x7f80_0000,
        p <==> x == 0 || x >= 0x7f80_0000,
{
}

/// A position is taken with its divergence behind the others, and it counts as a hit where both
/// prefer the same token. A known target is counted for itself.
pub proof fn law_positions_are_gathered(
    a: &mut KlAccumulator,
    kl: u64,
    top1: bool,
    b: &mut KlAccumulator,
    fresh: KlAccumulator,
)
    requires
        old(a).wf(),
        call_ensures(KlAccumulator::push, (a, kl, top1), ()),
        call_ensures(KlAccumulator::push_target, (b,), ()),
        call_ensures(KlAccumulator::new, (), fresh),
    ensures
        final(a).values@ == old(a).values@.push(kl),
        top1 ==> final(a).top1_hits == old(a).top1_hits + 1,
        !top1 ==> final(a).top1_hits == old(a).top1_hits,
        final(a).target_count == old(a).target_count,
        final(b).target_count == old(b).target_count + 1,
        final(b).values@ == old(b).values@ && final(b).top1_hits == old(b).top1_hits,
        fresh.values@.len() == 0 && fresh.top1_hits == 0 && fresh.target_count == 0,
{
}

/// The whole part of a number below one is zero, and of any other its mantissa moved by its exponent.
/// Negative numbers and what is no number count as zero, and what is too great as the greatest.
pub proof fn law_whole_parts(bits: u32, r: u32, e: nat, m: nat)
    requires
        call_ensures(floats::to_whole, (bits,), r),
        bits % 0x8000_0000 == e * 0x80_0000 + m,
        m < 0x80_0000,
    ensures
        bits >= 0x8000_0000 || bits > 0x7f80_0000 ==> r == 0,
        bits == 0x7f80_0000 ==> r == 0xffff_ffff,
        bits < 0x8000_0000 && e < 127 ==> r == 0,
        bits < 0x8000_0000 && 127 <= e <= 150 ==> r == (m + 0x80_0000) / pow2((150 - e) as nat),
        bits < 0x8000_0000 && 150 <= e <= 158 ==> r == if (m + 0x80_0000) * pow2((e - 150) as nat)
            > 0xffff_ffff {
            0xffff_ffff
        } else {
            (m + 0x80_0000) * pow2((e - 150) as nat)
        },
{
    lemma2_to64();
    if bits < 0x7f80_0000 {
        let x = minifloat::f32_mag(bits);
        let p = pow2(149);
        lemma_pow2_pos(149);
        let a = (m + 0x80_0000) as nat;
        if e >= 1 {
            minifloat::lemma_mini_value(bits as nat, 23, e, m);
        }
        if e < 127 {
            assert(x < p) by {
                if e == 0 {
                    lemma_pow2_strictly_increases(23, 149);
                } else {
                    let w = pow2((e - 1) as nat);
                    lemma_pow2_pos((e - 1) as nat);
                    lemma_pow2_adds(24, (e - 1) as nat);
                    if e + 23 < 149 {
                        lemma_pow2_strictly_increases((e + 23) as nat, 149);
                    }
                    assert(a * w < 0x100_0000 * w) by (nonlinear_arith)
                        requires
                            a < 0x100_0000,
                            w > 0,
                    ;
                }
            }
            assert(x / p == 0) by (nonlinear_arith)
                requires
                    0 <= x < p,
            ;
        } else if e <= 150 {
            let d = pow2((150 - e) as nat);
            let w = pow2((e - 1) as nat);
            lemma_pow2_pos((150 - e) as nat);
            lemma_pow2_pos((e - 1) as nat);
            lemma_pow2_adds((150 - e) as nat, (e - 1) as nat);
            assert(p == d * w);
            vstd::arithmetic::div_mod::lemma_div_denominator(
                (a * w) as int,
                w as int,
                d as int,
            );
            vstd::arithmetic::div_mod::lemma_div_by_multiple(a as int, w as int);
            assert(w * d == d * w) by (nonlinear_arith);
            assert(a / d <= a) by (nonlinear_arith)
                requires
                    d >= 1,
            ;
        }
        if 150 <= e <= 158 {
            let d = pow2((e - 150) as nat);
            lemma_pow2_adds((e - 150) as nat, 149);
            assert(a * (d * p) == (a * d) * p) by (nonlinear_arith);
            vstd::arithmetic::div_mod::lemma_div_by_multiple((a * d) as int, p as int);
        }
    }
}

} // verus!
