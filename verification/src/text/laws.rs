//! What texts promise: trimming, searching, splitting, cases and numbers.
use vstd::prelude::*;
use crate::text;
use crate::text::{
    decimal_of, find, is_before, parse_up_to, split, strip_prefix, strip_suffix, to_lowercase,
    to_uppercase, trim,
};

verus! {

/// How many white space characters a text begins with, at most all of them.
proof fn lemma_leading(s: Seq<char>)
    ensures
        0 <= text::leading_spaces(s) <= s.len(),
        forall|i: int| 0 <= i < text::leading_spaces(s) ==> text::is_space(#[trigger] s[i]),
        text::leading_spaces(s) < s.len() ==> !text::is_space(s[text::leading_spaces(s)]),
    decreases s.len(),
{
    if s.len() > 0 && text::is_space(s[0]) {
        let rest = s.drop_first();
        lemma_leading(rest);
        let n = text::leading_spaces(rest);
        assert forall|i: int| 0 <= i < n + 1 implies text::is_space(#[trigger] s[i]) by {
            if i > 0 {
                assert(text::is_space(rest[i - 1]));
            }
        }
        if n < rest.len() {
            assert(rest[n] == s[n + 1]);
        }
    }
}

/// What is left of a text without the white space at its end.
proof fn lemma_trimmed_end(s: Seq<char>)
    ensures
        ({
            let n = text::trimmed_end(s).len();
            &&& n <= s.len()
            &&& text::trimmed_end(s) == s.subrange(0, n as int)
            &&& forall|i: int| n <= i < s.len() ==> text::is_space(#[trigger] s[i])
            &&& n > 0 ==> !text::is_space(s[n - 1])
        }),
    decreases s.len(),
{
    if s.len() > 0 && text::is_space(s.last()) {
        let before = s.drop_last();
        lemma_trimmed_end(before);
        let n = text::trimmed_end(before).len();
        assert(before.subrange(0, n as int) =~= s.subrange(0, n as int));
        assert forall|i: int| n <= i < s.len() implies text::is_space(#[trigger] s[i]) by {
            if i < s.len() - 1 {
                assert(text::is_space(before[i]));
            }
        }
    } else {
        assert(s.subrange(0, s.len() as int) =~= s);
    }
}

/// A text without white space at its ends is not changed by trimming.
pub proof fn lemma_trimmed_plain(s: Seq<char>)
    requires
        s.len() > 0 ==> !text::is_space(s[0]) && !text::is_space(s.last()),
    ensures
        text::trimmed(s) == s,
{
    assert(text::after(s, 0) =~= s);
}

/// Digits with something else behind them.
pub proof fn lemma_digits_in_front(d: Seq<char>, u: Seq<char>)
    requires
        forall|i: int| 0 <= i < d.len() ==> text::is_digit(#[trigger] d[i]),
        u.len() > 0 ==> !text::is_digit(u[0]),
    ensures
        text::leading_digits(d + u) == d.len(),
    decreases d.len(),
{
    let s = d + u;
    if d.len() > 0 {
        let rest = d.drop_first();
        assert forall|i: int| 0 <= i < rest.len() implies text::is_digit(#[trigger] rest[i]) by {
            assert(text::is_digit(d[i + 1]));
        }
        lemma_digits_in_front(rest, u);
        assert(s.drop_first() =~= rest + u);
        assert(text::is_digit(d[0]));
    } else {
        assert(s =~= u);
    }
}

/// Trimming takes white space from both ends and nothing else: what is left stands in the text,
/// everything before and behind it is white space, and neither of its ends is.
pub proof fn law_trimming(s: &str, r: &str)
    requires
        call_ensures(trim, (s,), r),
    ensures
        exists|i: int, j: int|
            #![trigger s@.subrange(i, j)]
            {
                &&& 0 <= i <= j <= s@.len()
                &&& r@ == s@.subrange(i, j)
                &&& forall|k: int| 0 <= k < i || j <= k < s@.len() ==> text::is_space(#[trigger] s@[k])
            },
        r@.len() > 0 ==> !text::is_space(r@[0]) && !text::is_space(r@.last()),
{
    let t = s@;
    let i = text::leading_spaces(t);
    let behind = text::after(t, i);
    lemma_leading(t);
    lemma_trimmed_end(behind);
    let n = r@.len();
    let j = i + n;
    assert(r@ =~= t.subrange(i, j));
    assert forall|k: int| 0 <= k < i || j <= k < t.len() implies text::is_space(#[trigger] t[k]) by {
        if k >= j {
            assert(text::is_space(behind[k - i]));
        }
    }
    if n > 0 {
        assert(behind[0] == t[i]);
        assert(behind[n - 1] == r@.last());
    }
}

/// Spaces, tabs and line ends are white space; letters, digits, signs and dots are not.
pub proof fn law_white_space(c: char)
    ensures
        c == ' ' || c == '\t' || c == '\n' || c == '\r' ==> text::is_space(c),
        '!' <= c <= '~' ==> !text::is_space(c),
{
}

/// Changing the case changes the letters from `a` to `z` one by one and nothing else.
pub proof fn law_cases(s: &str, up: String, low: String, i: int)
    requires
        call_ensures(to_uppercase, (s,), up),
        call_ensures(to_lowercase, (s,), low),
        0 <= i < s@.len(),
    ensures
        up@.len() == s@.len() == low@.len(),
        'a' <= s@[i] <= 'z' ==> up@[i] as int == s@[i] as int - 32 && low@[i] == s@[i],
        'A' <= s@[i] <= 'Z' ==> low@[i] as int == s@[i] as int + 32 && up@[i] == s@[i],
        !('a' <= s@[i] <= 'z') && !('A' <= s@[i] <= 'Z') ==> up@[i] == s@[i] == low@[i],
{
}

/// What is found is the first place at which the text stands, and nothing is found where it stands
/// nowhere.
pub proof fn law_finding(s: &str, p: &str, r: Option<usize>, j: int)
    requires
        call_ensures(find, (s, p), r),
        0 <= j,
        j + p@.len() <= s@.len(),
    ensures
        s@.subrange(j, j + p@.len()) == p@ ==> r is Some && r->0 <= j,
        r matches Some(i) ==> i + p@.len() <= s@.len() && s@.subrange(i as int, i + p@.len()) == p@,
{
    if s@.subrange(j, j + p@.len()) == p@ {
        assert(text::occurs_at(s@, p@, j));
        text::lemma_first_exists(s@, p@, j);
    }
}

/// A prefix and what is left make the text again, and so do what is left and a suffix.
pub proof fn law_stripping(s: &str, p: &str, front: Option<&str>, back: Option<&str>)
    requires
        call_ensures(strip_prefix, (s, p), front),
        call_ensures(strip_suffix, (s, p), back),
    ensures
        front is Some <==> p@.is_prefix_of(s@),
        front matches Some(r) ==> s@ == p@ + r@,
        back is Some <==> p@.is_suffix_of(s@),
        back matches Some(r) ==> s@ == r@ + p@,
{
    if p@.is_prefix_of(s@) {
        assert(s@ =~= p@ + text::after(s@, p@.len() as int));
    }
    if p@.is_suffix_of(s@) {
        assert(s@ =~= text::before(s@, p@.len() as int) + p@);
    }
}

/// Parts with a character between each two.
pub open spec fn joined(parts: Seq<Seq<char>>, c: char) -> Seq<char>
    decreases parts.len(),
{
    if parts.len() == 0 {
        Seq::empty()
    } else if parts.len() == 1 {
        parts[0]
    } else {
        joined(parts.drop_last(), c).push(c) + parts.last()
    }
}

/// The parts of a text, joined again, are the text.
pub proof fn lemma_pieces(s: Seq<char>, c: char)
    ensures
        ({
            let p = text::pieces(s, c);
            &&& p.len() > 0
            &&& joined(p, c) == s
            &&& forall|i: int, j: int|
                0 <= i < p.len() && 0 <= j < p[i].len() ==> #[trigger] p[i][j] != c
        }),
    decreases s.len(),
{
    let p = text::pieces(s, c);
    if s.len() == 0 {
        assert(joined(p, c) =~= s);
    } else {
        let before = s.drop_last();
        let q = text::pieces(before, c);
        lemma_pieces(before, c);
        if s.last() == c {
            assert(p.drop_last() =~= q);
            assert(joined(p, c) =~= s);
        } else {
            assert(p.drop_last() =~= q.drop_last());
            assert(p.last() == q.last().push(s.last()));
            assert(joined(p, c) =~= joined(q, c).push(s.last()));
            assert(joined(p, c) =~= s);
        }
        assert forall|i: int, j: int| 0 <= i < p.len() && 0 <= j < p[i].len() implies #[trigger]
        p[i][j] != c by {
            if i < p.len() - 1 {
                assert(p[i] == q[i]);
                assert(q[i][j] != c);
            } else if s.last() != c && j < p[i].len() - 1 {
                assert(q.last()[j] == p[i][j]);
                assert(q[q.len() - 1][j] != c);
            }
        }
    }
}

/// The parts of a text between separators have no separator in them, and joined again they are the
/// text.
pub proof fn law_splitting(s: &str, c: char, r: Vec<String>, i: int, j: int)
    requires
        call_ensures(split, (s, c), r),
    ensures
        joined(text::text_models(r@), c) == s@,
        0 <= i < r@.len() && 0 <= j < r@[i]@.len() ==> r@[i]@[j] != c,
{
    lemma_pieces(s@, c);
    let p = text::text_models(r@);
    if 0 <= i < r@.len() && 0 <= j < r@[i]@.len() {
        assert(p[i] == r@[i]@);
        assert(p[i][j] != c);
    }
}

/// A number is read back from the text written for it, as long as it is not above the limit, and
/// whatever is read has only digits in it but for a plus sign in front.
pub proof fn law_numbers(n: u64, written: String, s: &str, max: u64, r: Option<u64>)
    requires
        call_ensures(decimal_of, (n,), written),
        call_ensures(parse_up_to, (s, max), r),
    ensures
        s@ == written@ ==> r == if n <= max {
            Some(n)
        } else {
            None
        },
        r matches Some(x) ==> x <= max && s@.len() > 0,
        r is Some ==> forall|i: int|
            0 <= i < s@.len() ==> '0' <= #[trigger] s@[i] <= '9' || (i == 0 && s@[i] == '+'),
{
    text::lemma_decimal(n as nat);
    if s@ == written@ {
        assert(text::is_digit(s@[0]));
    }
    if r is Some {
        let d = text::unsigned_text(s@);
        assert forall|i: int| 0 <= i < s@.len() implies '0' <= #[trigger] s@[i] <= '9' || (i == 0
            && s@[i] == '+') by {
            if s@[0] == '+' {
                if i > 0 {
                    assert(d[i - 1] == s@[i]);
                    assert(text::is_digit(d[i - 1]));
                }
            } else {
                assert(text::is_digit(d[i]));
            }
        }
    }
}

/// Texts are ordered as words in a dictionary: of two, one stands before the other unless they are
/// the same, and never each before the other. A text stands before what begins with it, and at the
/// first difference the smaller character comes first.
pub proof fn law_order_of_texts(a: &str, b: &str, x: bool, y: bool, i: int)
    requires
        call_ensures(is_before, (a, b), x),
        call_ensures(is_before, (b, a), y),
    ensures
        !(x && y),
        !x && !y <==> a@ == b@,
        a@.is_prefix_of(b@) && a@.len() < b@.len() ==> x,
        0 <= i < a@.len() && i < b@.len() && a@.subrange(0, i) == b@.subrange(0, i) && a@[i] < b@[i]
            ==> x,
{
    text::lemma_precedes_total(a@, b@);
    text::lemma_precedes_irreflexive(a@);
    if x && y {
        text::lemma_precedes_transitive(a@, b@, a@);
    }
    if a@.is_prefix_of(b@) && a@.len() < b@.len() {
        lemma_prefix_precedes(a@, b@);
    }
    if 0 <= i < a@.len() && i < b@.len() && a@.subrange(0, i) == b@.subrange(0, i) && a@[i] < b@[i] {
        lemma_difference_precedes(a@, b@, i);
    }
}

/// A text stands before what begins with it.
proof fn lemma_prefix_precedes(a: Seq<char>, b: Seq<char>)
    requires
        a.is_prefix_of(b),
        a.len() < b.len(),
    ensures
        text::precedes(a, b),
    decreases a.len(),
{
    if a.len() > 0 {
        assert(b.subrange(0, a.len() as int)[0] == b[0]);
        assert(b.drop_first().subrange(0, a.len() - 1) =~= b.subrange(0, a.len() as int).drop_first());
        lemma_prefix_precedes(a.drop_first(), b.drop_first());
    }
}

/// The smaller character at the first difference comes first.
proof fn lemma_difference_precedes(a: Seq<char>, b: Seq<char>, i: int)
    requires
        0 <= i < a.len(),
        i < b.len(),
        a.subrange(0, i) == b.subrange(0, i),
        a[i] < b[i],
    ensures
        text::precedes(a, b),
    decreases i,
{
    if i > 0 {
        assert(a.subrange(0, i)[0] == a[0] && b.subrange(0, i)[0] == b[0]);
        assert(a.drop_first().subrange(0, i - 1) =~= a.subrange(0, i).drop_first());
        assert(b.drop_first().subrange(0, i - 1) =~= b.subrange(0, i).drop_first());
        lemma_difference_precedes(a.drop_first(), b.drop_first(), i - 1);
    }
}

} // verus!
