//! Sizes and shapes as text.
use vstd::arithmetic::power2::*;
use vstd::prelude::*;
use crate::gguf::geometry;
use crate::gguf::geometry::ggml_type_name;
use crate::gguf::reader::{GgufReader, TensorInfo};
use crate::ir;
use crate::ir::{ModelLayout, Role, TensorTag};
use crate::rounding;
use crate::rounding::{scaled_floor, to_double};
use crate::text;

pub mod laws;

verus! {

/// The power of 1024 with this exponent, up to four.
pub open spec fn kilo(i: nat) -> nat {
    if i == 0 {
        1
    } else if i == 1 {
        0x400
    } else if i == 2 {
        0x10_0000
    } else if i == 3 {
        0x4000_0000
    } else {
        0x100_0000_0000
    }
}

/// The greatest unit, up to the fourth, that a number of bytes fills.
pub open spec fn unit_index(v: nat) -> nat {
    if v >= kilo(4) {
        4
    } else if v >= kilo(3) {
        3
    } else if v >= kilo(2) {
        2
    } else if v >= kilo(1) {
        1
    } else {
        0
    }
}

/// The name of a unit of bytes.
pub open spec fn unit_name(i: nat) -> Seq<char> {
    if i == 0 {
        "B"@
    } else if i == 1 {
        "KiB"@
    } else if i == 2 {
        "MiB"@
    } else if i == 3 {
        "GiB"@
    } else {
        "TiB"@
    }
}

/// Hundredths as a number with two decimal places.
pub open spec fn two_places(h: nat) -> Seq<char> {
    text::decimal(h / 100) + seq!['.', text::digit_char(h / 10 % 10), text::digit_char(h % 10)]
}

/// A number of bytes in the greatest unit that it fills: below 1024 the number itself, otherwise
/// the number in double precision, in units and rounded to two places.
pub open spec fn bytes_text(b: u64) -> Seq<char> {
    let v = rounding::double_floor(b as nat, 1);
    let i = unit_index(v);
    if i == 0 {
        text::decimal(b as nat) + " B"@
    } else {
        two_places(rounding::half_even(100 * v, kilo(i))) + " "@ + unit_name(i)
    }
}

/// Appends hundredths as a number with two decimal places.
fn push_two_places(s: &mut String, h: u64)
    ensures
        final(s)@ == old(s)@ + two_places(h as nat),
{
    text::push_decimal(s, h / 100);
    s.push('.');
    let tens: u64 = h / 10 % 10;
    let ones: u64 = h % 10;
    s.push((48 + tens as u8) as char);
    s.push((48 + ones as u8) as char);
    assert(s@ =~= old(s)@ + two_places(h as nat));
}

/// Bytes in a unit, with two decimal places.
fn in_unit(v: u128, unit: u64, name: &str) -> (r: String)
    requires
        v <= 0x1_0000_0000_0000_0000,
        unit >= 0x400,
    ensures
        r@ == two_places(rounding::half_even(100 * v as nat, unit as nat)) + " "@ + name@,
{
    let n: u128 = 100 * v;
    let d: u128 = unit as u128;
    let q: u128 = n / d;
    let rest: u128 = n % d;
    proof {
        vstd::arithmetic::div_mod::lemma_fundamental_div_mod(n as int, d as int);
        assert(0x400 * q <= d * q) by (nonlinear_arith)
            requires
                d >= 0x400,
        ;
    }
    let h: u64 = if 2 * rest > d || (2 * rest == d && q % 2 == 1) {
        q as u64 + 1
    } else {
        q as u64
    };
    let mut s = String::new();
    push_two_places(&mut s, h);
    s.append(" ");
    s.append(name);
    proof {
        assert(h == rounding::half_even(100 * v as nat, unit as nat));
        assert(s@ =~= two_places(h as nat) + " "@ + name@);
    }
    s
}

/// A number of bytes for people to read.
pub fn fmt_bytes(b: u64) -> (r: String)
    ensures
        r@ == bytes_text(b),
{
    let v: u128 = to_double(b);
    if v >= 0x100_0000_0000 {
        in_unit(v, 0x100_0000_0000, "TiB")
    } else if v >= 0x4000_0000 {
        in_unit(v, 0x4000_0000, "GiB")
    } else if v >= 0x10_0000 {
        in_unit(v, 0x10_0000, "MiB")
    } else if v >= 0x400 {
        in_unit(v, 0x400, "KiB")
    } else {
        let mut s = text::decimal_of(b);
        s.append(" B");
        s
    }
}

/// The dimensions of a shape with a cross between each two; `scalar` where there are none.
pub open spec fn shape_text(dims: Seq<u64>) -> Seq<char>
    decreases dims.len(),
{
    if dims.len() == 0 {
        "scalar"@
    } else if dims.len() == 1 {
        text::decimal(dims[0] as nat)
    } else {
        shape_text(dims.drop_last()) + "×"@ + text::decimal(dims.last() as nat)
    }
}

/// A shape for people to read.
pub fn fmt_shape(dims: &[u64]) -> (r: String)
    ensures
        r@ == shape_text(dims@),
{
    let n: usize = dims.len();
    if n == 0 {
        return "scalar".to_owned();
    }
    let mut s = text::decimal_of(dims[0]);
    let mut i: usize = 1;
    assert(dims@.subrange(0, 1)[0] == dims@[0]);
    while i < n
        invariant
            1 <= i <= n == dims@.len(),
            s@ == shape_text(dims@.subrange(0, i as int)),
        decreases n - i,
    {
        let ghost longer = dims@.subrange(0, i + 1);
        assert(longer.drop_last() =~= dims@.subrange(0, i as int));
        s.append("×");
        text::push_decimal(&mut s, dims[i]);
        i = i + 1;
    }
    assert(dims@.subrange(0, n as int) =~= dims@);
    s
}

/// The name of a type.
pub fn type_label(t: u32) -> (r: String)
    ensures
        r@ == geometry::name_of(t),
{
    ggml_type_name(t)
}

/// A size that cannot be read.
#[derive(Debug, Clone, Copy, PartialEq, Eq, Structural)]
pub enum BudgetError {
    /// Nothing but white space.
    Empty,
    NotANumber,
    UnknownUnit,
}

/// How many digits and dots `s` begins with.
pub open spec fn number_length(s: Seq<char>) -> int
    decreases s.len(),
{
    if s.len() > 0 && (text::is_digit(s[0]) || s[0] == '.') {
        1 + number_length(s.drop_first())
    } else {
        0
    }
}

/// Digits before and behind the dot of a number, which may have none; none for a text of digits
/// and dots that is no number.
pub open spec fn number_parts(s: Seq<char>) -> Option<(Seq<char>, Seq<char>)> {
    match text::found(s, "."@) {
        None => if s.len() > 0 {
            Some((s, Seq::empty()))
        } else {
            None
        },
        Some(p) => {
            let whole = s.take(p);
            let part = text::after(s, p + 1);
            if text::occurs(part, "."@) || whole.len() + part.len() == 0 {
                None
            } else {
                Some((whole, part))
            }
        },
    }
}

/// The power of two that a unit stands for, its letters in upper case.
pub open spec fn unit_power(unit: Seq<char>) -> Option<nat> {
    if unit == ""@ || unit == "B"@ {
        Some(0)
    } else if unit == "K"@ || unit == "KB"@ || unit == "KIB"@ {
        Some(10)
    } else if unit == "M"@ || unit == "MB"@ || unit == "MIB"@ {
        Some(20)
    } else if unit == "G"@ || unit == "GB"@ || unit == "GIB"@ {
        Some(30)
    } else if unit == "T"@ || unit == "TB"@ || unit == "TIB"@ {
        Some(40)
    } else {
        None
    }
}

/// The bytes that a size states: a decimal number, taken in double precision, times its unit.
pub open spec fn bytes_stated(s: Seq<char>) -> Result<u64, BudgetError> {
    let t = text::trimmed(s);
    let n = number_length(t);
    if t.len() == 0 {
        Err(BudgetError::Empty)
    } else {
        match number_parts(t.take(n)) {
            None => Err(BudgetError::NotANumber),
            Some((whole, part)) => match unit_power(
                text::uppercase(text::trimmed(text::after(t, n))),
            ) {
                None => Err(BudgetError::UnknownUnit),
                Some(k) => Ok(
                    rounding::clamped(
                        rounding::double_floor(
                            text::digits_value(whole + part) * pow2(k),
                            rounding::pow10(part.len()),
                        ),
                    ),
                ),
            },
        }
    }
}

/// How many digits and dots `s` begins with.
fn count_number(s: &str) -> (r: usize)
    ensures
        r == number_length(s@),
        r <= s@.len(),
{
    let n: usize = s.unicode_len();
    let mut i: usize = 0;
    assert(text::after(s@, 0) =~= s@);
    while i < n
        invariant
            i <= n == s@.len(),
            number_length(s@) == i + number_length(text::after(s@, i as int)),
        decreases n - i,
    {
        let ghost rest = text::after(s@, i as int);
        let c = s.get_char(i);
        assert(rest[0] == c);
        assert(rest.drop_first() =~= text::after(s@, i + 1));
        if !(('0' <= c && c <= '9') || c == '.') {
            return i;
        }
        i = i + 1;
    }
    assert(text::after(s@, n as int) =~= Seq::empty());
    i
}

/// No more digits and dots than characters.
proof fn lemma_number_length(s: Seq<char>)
    ensures
        0 <= number_length(s) <= s.len(),
    decreases s.len(),
{
    if s.len() > 0 {
        lemma_number_length(s.drop_first());
    }
}

/// A text that begins with so many digits and dots has only those in front.
proof fn lemma_number(s: Seq<char>, i: int)
    requires
        0 <= i < number_length(s),
    ensures
        text::is_digit(s[i]) || s[i] == '.',
    decreases s.len(),
{
    lemma_number_length(s);
    if i > 0 {
        lemma_number(s.drop_first(), i - 1);
        assert(s.drop_first()[i - 1] == s[i]);
    }
}

/// Digits before and behind the dot of a number.
fn split_number(s: &str) -> (r: Option<(&str, &str)>)
    ensures
        match r {
            Some((a, b)) => number_parts(s@) == Some((a@, b@)),
            None => number_parts(s@) is None,
        },
{
    let len: usize = s.unicode_len();
    match text::find(s, ".") {
        None => if len > 0 {
            let part = s.substring_char(len, len);
            assert(part@ =~= Seq::empty());
            Some((s, part))
        } else {
            None
        },
        Some(p) => {
            proof {
                reveal_strlit(".");
                assert("."@.len() == 1);
            }
            let whole = s.substring_char(0, p);
            let part = s.substring_char(p + 1, len);
            assert(whole@ =~= s@.take(p as int));
            assert(part@ =~= text::after(s@, p + 1));
            if text::contains(part, ".") || (p == 0 && p + 1 == len) {
                None
            } else {
                Some((whole, part))
            }
        },
    }
}

/// The power of two that a unit stands for, its letters in upper case.
fn find_unit(u: &str) -> (r: Option<u64>)
    ensures
        match r {
            Some(k) => unit_power(u@) == Some(k as nat) && k <= 40,
            None => unit_power(u@) is None,
        },
{
    if text::same(u, "") || text::same(u, "B") {
        Some(0)
    } else if text::same(u, "K") || text::same(u, "KB") || text::same(u, "KIB") {
        Some(10)
    } else if text::same(u, "M") || text::same(u, "MB") || text::same(u, "MIB") {
        Some(20)
    } else if text::same(u, "G") || text::same(u, "GB") || text::same(u, "GIB") {
        Some(30)
    } else if text::same(u, "T") || text::same(u, "TB") || text::same(u, "TIB") {
        Some(40)
    } else {
        None
    }
}

/// The numbers of digits.
fn digits_of(s: &str) -> (r: Vec<u8>)
    requires
        forall|i: int| 0 <= i < s@.len() ==> text::is_digit(#[trigger] s@[i]),
    ensures
        rounding::are_digits(r@),
        r@.len() == s@.len(),
        rounding::value_of(r@) == text::digits_value(s@),
{
    let n: usize = s.unicode_len();
    let mut out: Vec<u8> = Vec::new();
    let mut i: usize = 0;
    assert(s@.subrange(0, 0) =~= Seq::empty());
    while i < n
        invariant
            i <= n == s@.len(),
            forall|i: int| 0 <= i < s@.len() ==> text::is_digit(#[trigger] s@[i]),
            out@.len() == i,
            rounding::are_digits(out@),
            rounding::value_of(out@) == text::digits_value(s@.subrange(0, i as int)),
        decreases n - i,
    {
        let ghost longer = s@.subrange(0, i + 1);
        let ghost had = out@;
        assert(longer.drop_last() =~= s@.subrange(0, i as int));
        let c = s.get_char(i);
        assert(text::is_digit(s@[i as int]));
        let d: u8 = (c as u32 - 48) as u8;
        out.push(d);
        assert(out@.drop_last() =~= had);
        i = i + 1;
    }
    assert(s@.subrange(0, n as int) =~= s@);
    out
}

/// The number of digits one behind the other.
proof fn lemma_joined(a: Seq<char>, b: Seq<char>)
    ensures
        text::digits_value(a + b) == text::digits_value(a) * rounding::pow10(b.len())
            + text::digits_value(b),
    decreases b.len(),
{
    if b.len() == 0 {
        assert(a + b =~= a);
        let x = text::digits_value(a);
        assert(x * rounding::pow10(0) == x) by (nonlinear_arith)
            requires
                rounding::pow10(0) == 1,
        ;
    } else {
        lemma_joined(a, b.drop_last());
        assert((a + b).drop_last() =~= a + b.drop_last());
        assert((a + b).last() == b.last());
        let x = text::digits_value(a);
        let p = rounding::pow10((b.len() - 1) as nat);
        assert(10 * (x * p) == x * (10 * p)) by (nonlinear_arith);
    }
}

/// Reads a size such as `12G`, `500M` or `4.5GiB`, or a plain number of bytes.
pub fn parse_bytes(s: &str) -> (r: Result<u64, BudgetError>)
    ensures
        r == bytes_stated(s@),
{
    let t = text::trim(s);
    let len: usize = t.unicode_len();
    if len == 0 {
        return Err(BudgetError::Empty);
    }
    let n: usize = count_number(t);
    let num = t.substring_char(0, n);
    let unit = t.substring_char(n, len);
    assert(num@ =~= t@.take(n as int));
    assert(unit@ =~= text::after(t@, n as int));
    let (whole, part) = match split_number(num) {
        Some(p) => p,
        None => return Err(BudgetError::NotANumber),
    };
    let up = text::to_uppercase(text::trim(unit));
    let k: u64 = match find_unit(up.as_str()) {
        Some(k) => k,
        None => return Err(BudgetError::UnknownUnit),
    };
    proof {
        lemma_parts_are_digits(t@, num@, whole@, part@);
        lemma_joined(whole@, part@);
    }
    let w = digits_of(whole);
    let f = digits_of(part);
    Ok(scaled_floor(w.as_slice(), f, k))
}

/// The parts of a number have only digits.
proof fn lemma_parts_are_digits(t: Seq<char>, num: Seq<char>, whole: Seq<char>, part: Seq<char>)
    requires
        num == t.take(number_length(t)),
        number_parts(num) == Some((whole, part)),
    ensures
        forall|i: int| 0 <= i < whole.len() ==> text::is_digit(#[trigger] whole[i]),
        forall|i: int| 0 <= i < part.len() ==> text::is_digit(#[trigger] part[i]),
{
    reveal_strlit(".");
    let n = number_length(t);
    lemma_number_length(t);
    if text::occurs(num, "."@) {
        let q = choose|q: int| text::occurs_at(num, "."@, q);
        text::lemma_first_exists(num, "."@, q);
    }
    assert forall|i: int| 0 <= i < whole.len() implies text::is_digit(#[trigger] whole[i]) by {
        assert(whole[i] == num[i]);
        lemma_number(t, i);
        if num[i] == '.' {
            assert(text::occurs_at(num, "."@, i)) by {
                assert(num.subrange(i, i + 1) =~= "."@);
            }
            text::lemma_first_exists(num, "."@, i);
        }
    }
    assert forall|i: int| 0 <= i < part.len() implies text::is_digit(#[trigger] part[i]) by {
        match text::found(num, "."@) {
            Some(p) => {
                assert(part[i] == num[p + 1 + i]);
                lemma_number(t, p + 1 + i);
                if part[i] == '.' {
                    assert(text::occurs_at(part, "."@, i)) by {
                        assert(part.subrange(i, i + 1) =~= "."@);
                    }
                }
            },
            None => {},
        }
    }
}

/// How many of the tensors have no known role.
pub open spec fn unknown_count(tensors: Seq<TensorInfo>, n_layers: u32) -> nat
    decreases tensors.len(),
{
    if tensors.len() == 0 {
        0
    } else {
        unknown_count(tensors.drop_last(), n_layers) + if ir::tag_of(
            tensors.last().name@,
            n_layers,
        ).role == Role::Unknown {
            1nat
        } else {
            0
        }
    }
}

/// The tags of all tensors, and how many of them have no known role.
pub fn tag_all(reader: &GgufReader<'_>, layout: &ModelLayout) -> (r: (Vec<TensorTag>, usize))
    ensures
        r.0@.len() == reader.tensors@.len(),
        forall|i: int|
            0 <= i < r.0@.len() ==> #[trigger] r.0@[i] == ir::tag_of(
                reader.tensors@[i].name@,
                layout.n_layers,
            ),
        r.1 == unknown_count(reader.tensors@, layout.n_layers),
{
    let tensors = &reader.tensors;
    let n: usize = tensors.len();
    let mut tags: Vec<TensorTag> = Vec::new();
    let mut unknown: usize = 0;
    let mut i: usize = 0;
    while i < n
        invariant
            i <= n == tensors@.len(),
            tags@.len() == i,
            forall|j: int|
                0 <= j < i ==> #[trigger] tags@[j] == ir::tag_of(
                    tensors@[j].name@,
                    layout.n_layers,
                ),
            unknown == unknown_count(tensors@.subrange(0, i as int), layout.n_layers),
            unknown <= i,
        decreases n - i,
    {
        let ghost longer = tensors@.subrange(0, i + 1);
        assert(longer.drop_last() =~= tensors@.subrange(0, i as int));
        let tag = TensorTag::tag(tensors[i].name.as_str(), layout);
        if tag.role == Role::Unknown {
            unknown = unknown + 1;
        }
        tags.push(tag);
        i = i + 1;
    }
    assert(tensors@.subrange(0, n as int) =~= tensors@);
    (tags, unknown)
}

} // verus!
