//! What sizes and shapes as text promise.
use vstd::arithmetic::power2::*;
use vstd::prelude::*;
use crate::common;
use crate::common::{fmt_bytes, fmt_shape, parse_bytes, tag_all, type_label, BudgetError};
use crate::gguf::geometry::ggml_type_name;
use crate::gguf::reader::GgufReader;
use crate::ir;
use crate::ir::{ModelLayout, Role, TensorTag};
use crate::rounding;
use crate::text;

verus! {

/// Digits and dots with something else behind them.
proof fn lemma_number_in_front(d: Seq<char>, u: Seq<char>)
    requires
        forall|i: int| 0 <= i < d.len() ==> text::is_digit(#[trigger] d[i]) || d[i] == '.',
        u.len() > 0 ==> !text::is_digit(u[0]) && u[0] != '.',
    ensures
        common::number_length(d + u) == d.len(),
    decreases d.len(),
{
    let s = d + u;
    if d.len() > 0 {
        let rest = d.drop_first();
        assert forall|i: int| 0 <= i < rest.len() implies text::is_digit(#[trigger] rest[i])
            || rest[i] == '.' by {
            assert(text::is_digit(d[i + 1]) || d[i + 1] == '.');
        }
        lemma_number_in_front(rest, u);
        assert(s.drop_first() =~= rest + u);
        assert(text::is_digit(d[0]) || d[0] == '.');
    } else {
        assert(s =~= u);
    }
}

/// Digits without a dot are a whole number.
proof fn lemma_whole_number(d: Seq<char>)
    requires
        text::all_digits(d),
    ensures
        common::number_parts(d) == Some((d, Seq::<char>::empty())),
{
    reveal_strlit(".");
    if text::occurs(d, "."@) {
        let i = choose|i: int| text::occurs_at(d, "."@, i);
        assert(d.subrange(i, i + 1)[0] == d[i]);
        assert(text::is_digit(d[i]));
    }
}

/// A whole number with its unit stands for so many times the unit: bytes without a unit, and powers
/// of 1024 for K, M, G and T, which may have a B or an iB behind them, in either case and after a
/// space. Any other unit is refused. Numbers up to 2^53 bytes are exact.
pub proof fn law_budgets_are_counted_in_units(
    s: &str,
    n: nat,
    u: Seq<char>,
    r: Result<u64, BudgetError>,
)
    requires
        call_ensures(parse_bytes, (s,), r),
        s@ == text::decimal(n) + u,
        u.len() > 0 ==> !text::is_digit(u[0]) && u[0] != '.' && !text::is_space(u.last()),
    ensures
        ({
            let unit = text::uppercase(text::trimmed(u));
            let bytes = unit == ""@ || unit == "B"@;
            let kilo = unit == "K"@ || unit == "KB"@ || unit == "KIB"@;
            let mega = unit == "M"@ || unit == "MB"@ || unit == "MIB"@;
            let giga = unit == "G"@ || unit == "GB"@ || unit == "GIB"@;
            let tera = unit == "T"@ || unit == "TB"@ || unit == "TIB"@;
            &&& bytes && n < 0x20_0000_0000_0000 ==> r == Ok::<u64, BudgetError>(n as u64)
            &&& kilo && 0x400 * n < 0x20_0000_0000_0000 ==> r == Ok::<u64, BudgetError>(
                (0x400 * n) as u64,
            )
            &&& mega && 0x10_0000 * n < 0x20_0000_0000_0000 ==> r == Ok::<u64, BudgetError>(
                (0x10_0000 * n) as u64,
            )
            &&& giga && 0x4000_0000 * n < 0x20_0000_0000_0000 ==> r == Ok::<u64, BudgetError>(
                (0x4000_0000 * n) as u64,
            )
            &&& tera && 0x100_0000_0000 * n < 0x20_0000_0000_0000 ==> r == Ok::<u64, BudgetError>(
                (0x100_0000_0000 * n) as u64,
            )
            &&& !bytes && !kilo && !mega && !giga && !tera <==> r == Err::<u64, _>(
                BudgetError::UnknownUnit,
            )
        }),
{
    let d = text::decimal(n);
    let t = s@;
    text::lemma_decimal(n);
    assert(text::is_digit(d[0]) && text::is_digit(d[d.len() - 1]));
    assert(t[0] == d[0]);
    assert(t.last() == if u.len() > 0 {
        u.last()
    } else {
        d.last()
    });
    text::laws::lemma_trimmed_plain(t);
    lemma_number_in_front(d, u);
    lemma_whole_number(d);
    assert(t.take(d.len() as int) =~= d);
    assert(text::after(t, d.len() as int) =~= u);
    let unit = text::uppercase(text::trimmed(u));
    lemma_units_differ();
    lemma2_to64();
    lemma2_to64_rest();
    if common::unit_power(unit) is Some {
        let k = common::unit_power(unit)->0;
        let v = n * pow2(k);
        assert(d + Seq::<char>::empty() =~= d);
        assert(rounding::pow10(0) == 1);
        assert(r == Ok::<u64, BudgetError>(rounding::clamped(rounding::double_floor(v, 1))));
        if v < 0x20_0000_0000_0000 {
            lemma_bits(v);
            rounding::lemma_small_is_exact(v);
        }
        assert(n * 0x400 == 0x400 * n && n * 0x10_0000 == 0x10_0000 * n && n * 0x4000_0000
            == 0x4000_0000 * n && n * 0x100_0000_0000 == 0x100_0000_0000 * n && n * 1 == n);
    }
}

/// A number below 2^53 has at most 53 binary digits.
proof fn lemma_bits(v: nat)
    requires
        v < 0x20_0000_0000_0000,
    ensures
        rounding::bit_length(v) <= 53,
{
    rounding::lemma_bit_length(v);
    lemma2_to64();
    lemma2_to64_rest();
    if rounding::bit_length(v) > 53 {
        let k = (rounding::bit_length(v) - 1) as nat;
        if k > 53 {
            lemma_pow2_strictly_increases(53, k);
        }
        assert(pow2(53) == 0x20_0000_0000_0000);
    }
}

/// The units are told apart by their length and their first character.
proof fn lemma_units_differ()
    ensures
        ""@.len() == 0,
        "B"@.len() == 1 && "B"@[0] == 'B',
        "K"@.len() == 1 && "K"@[0] == 'K',
        "KB"@.len() == 2 && "KB"@[0] == 'K',
        "KIB"@.len() == 3 && "KIB"@[0] == 'K',
        "M"@.len() == 1 && "M"@[0] == 'M',
        "MB"@.len() == 2 && "MB"@[0] == 'M',
        "MIB"@.len() == 3 && "MIB"@[0] == 'M',
        "G"@.len() == 1 && "G"@[0] == 'G',
        "GB"@.len() == 2 && "GB"@[0] == 'G',
        "GIB"@.len() == 3 && "GIB"@[0] == 'G',
        "T"@.len() == 1 && "T"@[0] == 'T',
        "TB"@.len() == 2 && "TB"@[0] == 'T',
        "TIB"@.len() == 3 && "TIB"@[0] == 'T',
{
    reveal_strlit("");
    reveal_strlit("B");
    reveal_strlit("K");
    reveal_strlit("KB");
    reveal_strlit("KIB");
    reveal_strlit("M");
    reveal_strlit("MB");
    reveal_strlit("MIB");
    reveal_strlit("G");
    reveal_strlit("GB");
    reveal_strlit("GIB");
    reveal_strlit("T");
    reveal_strlit("TB");
    reveal_strlit("TIB");
}

/// A number of bytes below 1024 is told as it is. A greater one is told in the greatest unit that it
/// fills, up to TiB, as hundredths of the unit that are no further from it than half a hundredth.
/// Numbers below 2^53 are meant; greater ones are rounded to double precision first.
pub proof fn law_bytes_are_told_in_units(b: u64, r: String)
    requires
        call_ensures(fmt_bytes, (b,), r),
        b < 0x20_0000_0000_0000,
    ensures
        b < 0x400 ==> r@ == text::decimal(b as nat) + " B"@,
        0x400 <= b < 0x10_0000 ==> told_in(r@, b as nat, 0x400, "KiB"@),
        0x10_0000 <= b < 0x4000_0000 ==> told_in(r@, b as nat, 0x10_0000, "MiB"@),
        0x4000_0000 <= b < 0x100_0000_0000 ==> told_in(r@, b as nat, 0x4000_0000, "GiB"@),
        0x100_0000_0000 <= b ==> told_in(r@, b as nat, 0x100_0000_0000, "TiB"@),
{
    lemma_bits(b as nat);
    rounding::lemma_small_is_exact(b as nat);
    let v = b as nat;
    let h = if b < 0x10_0000 {
        rounding::half_even(100 * v, 0x400)
    } else if b < 0x4000_0000 {
        rounding::half_even(100 * v, 0x10_0000)
    } else if b < 0x100_0000_0000 {
        rounding::half_even(100 * v, 0x4000_0000)
    } else {
        rounding::half_even(100 * v, 0x100_0000_0000)
    };
    if b >= 0x400 {
        let name = if b < 0x10_0000 {
            "KiB"@
        } else if b < 0x4000_0000 {
            "MiB"@
        } else if b < 0x100_0000_0000 {
            "GiB"@
        } else {
            "TiB"@
        };
        assert(hundredths_text(h) =~= common::two_places(h));
        assert(r@ == hundredths_text(h) + " "@ + name);
    }
}

/// Hundredths as a number with a dot and two digits.
pub open spec fn hundredths_text(h: nat) -> Seq<char> {
    (text::decimal(h / 100).push('.') + text::decimal((h / 10) % 10)) + text::decimal(h % 10)
}

/// The text tells a number in a unit, to the nearest hundredth, and halfway to the even one.
pub open spec fn told_in(s: Seq<char>, b: nat, unit: nat, name: Seq<char>) -> bool {
    exists|h: nat|
        #![trigger hundredths_text(h)]
        s == hundredths_text(h) + " "@ + name && 2 * h * unit <= 200 * b + unit && 200 * b <= 2 * h
            * unit + unit && (h % 2 == 1 ==> 2 * h * unit < 200 * b + unit && 200 * b < 2 * h * unit
            + unit)
}

/// A shape is told dimension by dimension with a cross between: one more dimension stands behind
/// the others.
pub proof fn law_shapes_are_told_by_dimension(
    a: &[u64],
    b: &[u64],
    d: u64,
    x: String,
    y: String,
)
    requires
        b@ == a@.push(d),
        call_ensures(fmt_shape, (a,), x),
        call_ensures(fmt_shape, (b,), y),
    ensures
        a@.len() == 0 ==> x@ == "scalar"@ && y@ == text::decimal(d as nat),
        a@.len() > 0 ==> y@ == x@ + "×"@ + text::decimal(d as nat),
{
    assert(b@.drop_last() =~= a@);
}

/// A type has one name everywhere.
pub proof fn law_types_have_one_name(t: u32, x: String, y: String)
    requires
        call_ensures(type_label, (t,), x),
        call_ensures(ggml_type_name, (t,), y),
    ensures
        x@ == y@,
{
}

/// Every tensor gets the tag of its name, and those without a known role are counted: where no tag
/// is unknown the count is zero, and it never exceeds the number of tensors.
pub proof fn law_every_tensor_is_tagged(
    file: &GgufReader<'_>,
    layout: &ModelLayout,
    r: (Vec<TensorTag>, usize),
    i: int,
    name: &str,
    tag: TensorTag,
)
    requires
        call_ensures(tag_all, (file, layout), r),
        0 <= i < file.tensors@.len(),
        name@ == file.tensors@[i].name@,
        call_ensures(TensorTag::tag, (name, layout), tag),
    ensures
        r.0@.len() == file.tensors@.len(),
        r.0@[i] == tag,
        r.1 as int == r.0@.filter(|t: TensorTag| t.role == Role::Unknown).len(),
{
    lemma_unknown(file.tensors@, layout.n_layers, r.0@);
}

/// Unknown tensors are counted one by one.
proof fn lemma_unknown(
    tensors: Seq<crate::gguf::reader::TensorInfo>,
    n_layers: u32,
    tags: Seq<TensorTag>,
)
    requires
        tags.len() == tensors.len(),
        forall|i: int|
            0 <= i < tags.len() ==> #[trigger] tags[i] == ir::tag_of(tensors[i].name@, n_layers),
    ensures
        common::unknown_count(tensors, n_layers) == tags.filter(
            |t: TensorTag| t.role == Role::Unknown,
        ).len(),
    decreases tensors.len(),
{
    reveal(Seq::filter);
    if tensors.len() > 0 {
        let before = tags.drop_last();
        assert forall|i: int| 0 <= i < before.len() implies #[trigger] before[i] == ir::tag_of(
            tensors.drop_last()[i].name@,
            n_layers,
        ) by {
            assert(before[i] == tags[i]);
        }
        lemma_unknown(tensors.drop_last(), n_layers, before);
        assert(tags[tags.len() - 1] == ir::tag_of(tensors.last().name@, n_layers));
    }
}

/// A number below 2^49 in tenths loses what is behind the dot in double precision and nothing else.
proof fn lemma_tenths(x: nat)
    requires
        x / 10 < 0x2_0000_0000_0000,
    ensures
        rounding::double_floor(x, 10) == x / 10,
{
    lemma2_to64();
    lemma2_to64_rest();
    let y = x / 10;
    let k = rounding::bit_length(y);
    rounding::lemma_bit_length(y);
    if k > 49 {
        if k - 1 > 49 {
            lemma_pow2_strictly_increases(49, (k - 1) as nat);
        }
    }
    let s = (53 - k) as nat;
    let p = pow2(s);
    if s > 4 {
        lemma_pow2_strictly_increases(4, s);
    }
    assert(p >= 16);
    let r = x % 10;
    let n = x * p;
    let t = (r * p) / 10;
    assert(n == 10 * (y * p) + r * p) by (nonlinear_arith)
        requires
            n == x * p,
            x == 10 * y + r,
    ;
    assert(r * p <= 9 * p) by (nonlinear_arith)
        requires
            r <= 9,
    ;
    let h = rounding::half_even(n, 10);
    assert(n / 10 == y * p + t);
    assert(y * p <= h <= y * p + t + 1);
    assert((y + 1) * p == y * p + p) by (nonlinear_arith);
    assert(t + 1 < p);
    let low = h - y * p;
    vstd::arithmetic::div_mod::lemma_fundamental_div_mod_converse(
        h as int,
        p as int,
        y as int,
        low,
    );
}

/// A number with a digit behind its dot and a unit stands for so many times the unit, and what is
/// less than a byte is cut off.
pub proof fn law_budgets_with_a_dot(
    s: &str,
    n: nat,
    d: nat,
    u: Seq<char>,
    r: Result<u64, BudgetError>,
)
    requires
        call_ensures(parse_bytes, (s,), r),
        d < 10,
        s@ == text::decimal(n) + seq!['.'] + text::decimal(d) + u,
        u.len() > 0 ==> !text::is_digit(u[0]) && u[0] != '.' && !text::is_space(u.last()),
    ensures
        ({
            let unit = text::uppercase(text::trimmed(u));
            let x = 10 * n + d;
            &&& unit == "K"@ && 0x400 * x / 10 < 0x2_0000_0000_0000 ==> r == Ok::<
                u64,
                BudgetError,
            >((0x400 * x / 10) as u64)
            &&& unit == "M"@ && 0x10_0000 * x / 10 < 0x2_0000_0000_0000 ==> r == Ok::<
                u64,
                BudgetError,
            >((0x10_0000 * x / 10) as u64)
            &&& unit == "G"@ && 0x4000_0000 * x / 10 < 0x2_0000_0000_0000 ==> r == Ok::<
                u64,
                BudgetError,
            >((0x4000_0000 * x / 10) as u64)
            &&& (unit == "GB"@ || unit == "GIB"@) && 0x4000_0000 * x / 10 < 0x2_0000_0000_0000 ==> r
                == Ok::<u64, BudgetError>((0x4000_0000 * x / 10) as u64)
            &&& unit == "T"@ && 0x100_0000_0000 * x / 10 < 0x2_0000_0000_0000 ==> r == Ok::<
                u64,
                BudgetError,
            >((0x100_0000_0000 * x / 10) as u64)
        }),
{
    let w = text::decimal(n);
    let f = text::decimal(d);
    let num = w + seq!['.'] + f;
    let t = s@;
    reveal_strlit(".");
    text::lemma_decimal(n);
    text::lemma_decimal(d);
    assert(f =~= seq![text::digit_char(d)]);
    assert(text::is_digit(w[0]) && text::is_digit(f[0]));
    assert(t[0] == w[0]);
    assert(t.last() == if u.len() > 0 {
        u.last()
    } else {
        f[0]
    });
    text::laws::lemma_trimmed_plain(t);
    assert forall|i: int| 0 <= i < num.len() implies text::is_digit(#[trigger] num[i]) || num[i]
        == '.' by {
        if i < w.len() {
            assert(text::is_digit(w[i]));
        }
    }
    lemma_number_in_front(num, u);
    assert(t =~= num + u);
    assert(t.take(num.len() as int) =~= num);
    assert(text::after(t, num.len() as int) =~= u);
    let p = w.len() as int;
    assert(num.subrange(p, p + 1) =~= "."@);
    assert(text::occurs_at(num, "."@, p));
    assert forall|j: int| 0 <= j < p implies !text::occurs_at(num, "."@, j) by {
        if text::occurs_at(num, "."@, j) {
            assert(num.subrange(j, j + 1)[0] == num[j]);
            assert(text::is_digit(w[j]));
        }
    }
    text::lemma_found(num, "."@, p);
    assert(num.take(p) =~= w);
    assert(text::after(num, p + 1) =~= f);
    if text::occurs(f, "."@) {
        let i = choose|i: int| text::occurs_at(f, "."@, i);
        assert(f.subrange(i, i + 1)[0] == f[i]);
    }
    assert(common::number_parts(num) == Some((w, f)));
    assert((w + f).drop_last() =~= w);
    assert((w + f).last() == f[0]);
    assert(f.drop_last() =~= Seq::<char>::empty());
    assert(f.last() == f[0]);
    assert(text::digits_value(w + f) == 10 * n + d);
    lemma_units_differ();
    lemma2_to64();
    lemma2_to64_rest();
    let unit = text::uppercase(text::trimmed(u));
    assert(rounding::pow10(0) == 1);
    assert(rounding::pow10(1) == 10);
    let v = (10 * n + d) as nat;
    if common::unit_power(unit) is Some {
        let k = common::unit_power(unit)->0;
        assert(v * 0x400 == 0x400 * v && v * 0x10_0000 == 0x10_0000 * v && v * 0x4000_0000
            == 0x4000_0000 * v && v * 0x100_0000_0000 == 0x100_0000_0000 * v);
        if v * pow2(k) / 10 < 0x2_0000_0000_0000 {
            lemma_tenths(v * pow2(k));
        }
    }
}

/// A size without anything in it is empty, and one that begins with neither a digit nor a dot is no
/// number.
pub proof fn law_what_is_no_budget(s: &str, r: Result<u64, BudgetError>)
    requires
        call_ensures(parse_bytes, (s,), r),
    ensures
        text::trimmed(s@).len() == 0 <==> r == Err::<u64, _>(BudgetError::Empty),
        text::trimmed(s@).len() > 0 && !text::is_digit(text::trimmed(s@)[0]) && text::trimmed(
            s@,
        )[0] != '.' ==> r == Err::<u64, _>(BudgetError::NotANumber),
{
    let t = text::trimmed(s@);
    reveal_strlit(".");
    if t.len() > 0 && !text::is_digit(t[0]) && t[0] != '.' {
        let none = t.take(0);
        assert(common::number_length(t) == 0);
        if text::occurs(none, "."@) {
            let i = choose|i: int| text::occurs_at(none, "."@, i);
        }
    }
}

} // verus!
