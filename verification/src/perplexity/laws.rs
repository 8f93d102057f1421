//! What reading reports promises.
use vstd::prelude::*;
use crate::perplexity;
use crate::perplexity::{
    find_llama_perplexity, first_number, kl_args, kl_base_args, lines, parse_kl_report, parse_ppl,
    perplexity_args, tail, KlReport, PplResult,
};
use crate::text;

verus! {

/// A number as reports have it: digits, a dot and further digits.
pub open spec fn is_plain_number(d: Seq<char>, dot: int) -> bool {
    &&& 0 < dot < d.len() - 1
    &&& d[dot] == '.'
    &&& forall|i: int| 0 <= i < d.len() && i != dot ==> '0' <= #[trigger] d[i] <= '9'
}

/// Nothing that would go on with a number.
pub open spec fn ends_a_number(rest: Seq<char>) -> bool {
    rest.len() > 0 ==> !('0' <= rest[0] <= '9') && rest[0] != '.' && rest[0] != 'e' && rest[0] != 'E'
}

/// Only spaces.
pub open spec fn only_spaces(s: Seq<char>) -> bool {
    forall|i: int| 0 <= i < s.len() ==> #[trigger] s[i] == ' '
}

/// Digits are passed one by one.
proof fn lemma_past_digits(s: Seq<char>, first: int, at: int, st: perplexity::Scan, to: int)
    requires
        0 <= at <= to <= s.len(),
        forall|i: int| at <= i < to ==> text::is_digit(#[trigger] s[i]),
    ensures
        perplexity::scanned(s, first, at, st) == perplexity::scanned(s, first, to, st),
    decreases to - at,
{
    if at < to {
        assert(text::is_digit(s[at]));
        lemma_past_digits(s, first, at + 1, st, to);
    }
}

/// Spaces at the start are passed.
proof fn lemma_past_spaces(sp: Seq<char>, t: Seq<char>)
    requires
        only_spaces(sp),
        t.len() > 0 ==> !text::is_space(t[0]),
    ensures
        text::leading_spaces(sp + t) == sp.len(),
    decreases sp.len(),
{
    let s = sp + t;
    if sp.len() > 0 {
        assert(sp[0] == ' ');
        assert(s.drop_first() =~= sp.drop_first() + t);
        assert(only_spaces(sp.drop_first())) by {
            assert forall|i: int| 0 <= i < sp.drop_first().len() implies #[trigger]
            sp.drop_first()[i] == ' ' by {
                assert(sp[i + 1] == ' ');
            }
        }
        lemma_past_spaces(sp.drop_first(), t);
    } else {
        assert(s =~= t);
    }
}

/// A number behind spaces is read whole and nothing behind it.
proof fn lemma_plain_number(sp: Seq<char>, d: Seq<char>, dot: int, rest: Seq<char>)
    requires
        only_spaces(sp),
        is_plain_number(d, dot),
        ends_a_number(rest),
    ensures
        perplexity::number_in(sp + d + rest) == Some(d),
{
    let t = d + rest;
    let s = sp + d + rest;
    assert(s =~= sp + t);
    assert('0' <= d[0] <= '9');
    assert(t[0] == d[0]);
    lemma_past_spaces(sp, t);
    assert(text::after(s, sp.len() as int) =~= t);
    let none = perplexity::Scan { dot_seen: false, e_seen: false };
    let some = perplexity::Scan { dot_seen: true, e_seen: false };
    assert forall|i: int| 0 <= i < dot implies text::is_digit(#[trigger] t[i]) by {
        assert('0' <= d[i] <= '9');
    }
    lemma_past_digits(t, 0, 0, none, dot);
    assert(t[dot] == '.');
    assert(perplexity::scanned(t, 0, dot, none) == perplexity::scanned(t, 0, dot + 1, some));
    assert forall|i: int| dot + 1 <= i < d.len() implies text::is_digit(#[trigger] t[i]) by {
        assert('0' <= d[i] <= '9');
    }
    lemma_past_digits(t, 0, dot + 1, some, d.len() as int);
    if rest.len() > 0 {
        assert(t[d.len() as int] == rest[0]);
    }
    assert(perplexity::scanned(t, 0, d.len() as int, some) == d.len());
    assert(t.take(d.len() as int) =~= d);
    assert(perplexity::is_mantissa(d)) by {
        assert(text::is_digit(d[0]));
        assert forall|i: int| 0 <= i < d.len() implies text::is_digit(#[trigger] d[i]) || d[i]
            == '.' by {
            if i != dot {
                assert('0' <= d[i] <= '9');
            }
        }
        assert forall|i: int, j: int| 0 <= i < j < d.len() implies !(#[trigger] d[i] == '.'
            && #[trigger] d[j] == '.') by {
            if i != dot {
                assert('0' <= d[i] <= '9');
            } else {
                assert('0' <= d[j] <= '9');
            }
        }
    }
    assert(text::after(d, 0) =~= d);
}

/// A number behind spaces is read whole, and nothing behind it.
pub proof fn law_numbers_are_read_whole(
    s: &str,
    sp: Seq<char>,
    d: Seq<char>,
    dot: int,
    rest: Seq<char>,
    r: Option<String>,
)
    requires
        call_ensures(first_number, (s,), r),
        s@ == sp + d + rest,
        only_spaces(sp),
        is_plain_number(d, dot),
        ends_a_number(rest),
    ensures
        r matches Some(t) && t@ == d,
{
    lemma_plain_number(sp, d, dot, rest);
}

/// A text that stands nowhere in another.
pub open spec fn stands_nowhere(s: Seq<char>, p: Seq<char>) -> bool {
    forall|i: int| 0 <= i <= s.len() - p.len() ==> #[trigger] s.subrange(i, i + p.len()) != p
}

/// What stands nowhere is not found.
proof fn lemma_nowhere(s: Seq<char>, p: Seq<char>)
    requires
        stands_nowhere(s, p),
    ensures
        text::found(s, p) is None,
{
    if text::occurs(s, p) {
        let i = choose|i: int| text::occurs_at(s, p, i);
        assert(s.subrange(i, i + p.len()) == p);
    }
}

/// What stands behind a text without it is found there.
proof fn lemma_first_here(head: Seq<char>, p: Seq<char>, rest: Seq<char>)
    requires
        forall|i: int|
            0 <= i < head.len() ==> #[trigger] (head + p + rest).subrange(i, i + p.len()) != p,
    ensures
        text::found(head + p + rest, p) == Some(head.len() as int),
        text::after(head + p + rest, head.len() + p.len() as int) == rest,
{
    let s = head + p + rest;
    let n = head.len() as int;
    assert(s.subrange(n, n + p.len()) =~= p);
    assert forall|j: int| 0 <= j < n implies !text::occurs_at(s, p, j) by {
        if text::occurs_at(s, p, j) {
            assert(s.subrange(j, j + p.len()) == p);
        }
    }
    text::lemma_found(s, p, n);
    assert(text::after(s, n + p.len()) =~= rest);
}

/// One line more at the end of a report, as it stands there: where it gives a perplexity behind
/// `PPL =` with its uncertainty behind `+/-`, these are what is read of the report; where it has
/// none of the words that announce a perplexity, it changes nothing.
pub proof fn law_last_perplexity_is_read(
    a: &str,
    b: &str,
    v: Vec<String>,
    w: Vec<String>,
    l: Seq<char>,
    x: Option<PplResult>,
    y: Option<PplResult>,
)
    requires
        call_ensures(lines, (a,), v),
        call_ensures(lines, (b,), w),
        text::text_models(w@) == text::text_models(v@).push(l),
        l.len() > 0 ==> !text::is_space(l[0]) && !text::is_space(l.last()),
        call_ensures(parse_ppl, (a,), x),
        call_ensures(parse_ppl, (b,), y),
    ensures
        stands_nowhere(l, "PPL ="@) && stands_nowhere(l, "ppl ="@) && stands_nowhere(
            l,
            "perplexity:"@,
        ) ==> {
            &&& x is Some <==> y is Some
            &&& x is Some ==> x->0@ == y->0@
        },
        forall|head: Seq<char>, d: Seq<char>, dot: int, e: Seq<char>, f: int, end: Seq<char>|
            #[trigger]
            is_estimate(l, head, d, dot, e, f, end) ==> y is Some && y->0.ppl@ == d && y->0@.stderr
                == Some(e),
{
    let before = text::text_models(v@);
    assert(before.push(l).drop_last() =~= before);
    text::laws::lemma_trimmed_plain(l);
    if stands_nowhere(l, "PPL ="@) && stands_nowhere(l, "ppl ="@) && stands_nowhere(
        l,
        "perplexity:"@,
    ) {
        lemma_nowhere(l, "PPL ="@);
        lemma_nowhere(l, "ppl ="@);
        lemma_nowhere(l, "perplexity:"@);
    }
    assert forall|head: Seq<char>, d: Seq<char>, dot: int, e: Seq<char>, f: int, end: Seq<char>|
        #[trigger] is_estimate(l, head, d, dot, e, f, end) implies y is Some && y->0.ppl@ == d
        && y->0@.stderr == Some(e) by {
        lemma_estimate(l, head, d, dot, e, f, end);
    }
}

/// A line that gives a perplexity and its uncertainty.
pub open spec fn is_estimate(
    l: Seq<char>,
    head: Seq<char>,
    d: Seq<char>,
    dot: int,
    e: Seq<char>,
    f: int,
    end: Seq<char>,
) -> bool {
    &&& l == head + "PPL ="@ + (" "@ + d + (" "@ + "+/-"@ + (" "@ + e + end)))
    &&& is_plain_number(d, dot)
    &&& is_plain_number(e, f)
    &&& ends_a_number(end)
    &&& forall|i: int| 0 <= i < head.len() ==> #[trigger] l.subrange(i, i + 5) != "PPL ="@
}

/// What a line with an estimate says.
proof fn lemma_estimate(
    l: Seq<char>,
    head: Seq<char>,
    d: Seq<char>,
    dot: int,
    e: Seq<char>,
    f: int,
    end: Seq<char>,
)
    requires
        is_estimate(l, head, d, dot, e, f, end),
    ensures
        perplexity::ppl_in(l) == Some(perplexity::PplModel { ppl: d, stderr: Some(e) }),
{
    reveal_strlit("PPL =");
    reveal_strlit(" ");
    reveal_strlit("+/-");
    let tail = " "@ + e + end;
    let more = " "@ + "+/-"@ + tail;
    let rest = " "@ + d + more;
    assert("PPL ="@.len() == 5);
    lemma_first_here(head, "PPL ="@, rest);
    assert(more[0] == ' ');
    lemma_plain_number(" "@, d, dot, more);
    lemma_plain_number(" "@, e, f, end);
    let front = " "@ + d + " "@;
    assert(rest =~= front + "+/-"@ + tail);
    assert forall|i: int| 0 <= i < front.len() implies #[trigger] (front + "+/-"@ + tail).subrange(
        i,
        i + 3,
    ) != "+/-"@ by {
        let s = front + "+/-"@ + tail;
        assert(s.subrange(i, i + 3)[0] == front[i]);
        if 1 <= i < front.len() - 1 {
            assert(front[i] == d[i - 1]);
            if i - 1 != dot {
                assert('0' <= d[i - 1] <= '9');
            }
        }
    }
    lemma_first_here(front, "+/-"@, tail);
}

/// A line that gives a statistic of the divergence.
pub open spec fn is_statistic(
    l: Seq<char>,
    key: Seq<char>,
    sp: Seq<char>,
    d: Seq<char>,
    dot: int,
    rest: Seq<char>,
) -> bool {
    &&& l == key + "KLD:"@ + (sp + d + rest)
    &&& only_spaces(sp)
    &&& is_plain_number(d, dot)
    &&& ends_a_number(rest)
    &&& forall|i: int| 0 <= i < key.len() ==> #[trigger] l.subrange(i, i + 4) != "KLD:"@
}

/// What a report said before a line, or nothing.
pub open spec fn said(x: Option<KlReport>) -> perplexity::KlModel {
    match x {
        Some(k) => k.model(true),
        None => perplexity::nothing_read(),
    }
}

/// Nothing was read of a report in which nothing was seen.
proof fn lemma_nothing_seen(l: Seq<Seq<char>>)
    ensures
        !perplexity::kl_of(l).seen ==> perplexity::kl_of(l) == perplexity::nothing_read(),
    decreases l.len(),
{
    if l.len() > 0 {
        lemma_nothing_seen(l.drop_last());
    }
}

/// One line more at the end of a report on divergence, as it stands there: what stands before `KLD:`
/// says which statistic the number is, in any case, and only that one changes. The mean, the
/// greatest, the median, the ninety-ninth and the ninetieth hundredth are read; the nine hundred and
/// ninety-ninth thousandth is not taken for the ninety-ninth hundredth.
pub proof fn law_statistics_are_read_by_name(
    a: &str,
    b: &str,
    v: Vec<String>,
    w: Vec<String>,
    l: Seq<char>,
    key: Seq<char>,
    sp: Seq<char>,
    d: Seq<char>,
    dot: int,
    rest: Seq<char>,
    x: Option<KlReport>,
    y: Option<KlReport>,
)
    requires
        call_ensures(lines, (a,), v),
        call_ensures(lines, (b,), w),
        text::text_models(w@) == text::text_models(v@).push(l),
        l.len() > 0 ==> !text::is_space(l[0]) && !text::is_space(l.last()),
        is_statistic(l, key, sp, d, dot, rest),
        call_ensures(parse_kl_report, (a,), x),
        call_ensures(parse_kl_report, (b,), y),
    ensures
        y is Some,
        ({
            let k = text::lowercase(text::trimmed(key));
            let (old, new) = (said(x), said(y));
            let mean = "mean"@.is_prefix_of(k);
            let max = "max"@.is_prefix_of(k);
            let median = "median"@.is_prefix_of(k);
            let p99 = "99.0"@.is_prefix_of(k) || k == "99%"@;
            let p90 = "90.0"@.is_prefix_of(k) || k == "90%"@;
            &&& mean ==> new.mean == Some(d)
            &&& !mean ==> new.mean == old.mean
            &&& max ==> new.max == Some(d)
            &&& !max ==> new.max == old.max
            &&& median ==> new.median == Some(d)
            &&& !median ==> new.median == old.median
            &&& p99 ==> new.p99 == Some(d)
            &&& !p99 ==> new.p99 == old.p99
            &&& p90 ==> new.p90 == Some(d)
            &&& !p90 ==> new.p90 == old.p90
            &&& new.same_top == old.same_top
        }),
{
    let before = text::text_models(v@);
    assert(before.push(l).drop_last() =~= before);
    text::laws::lemma_trimmed_plain(l);
    lemma_nothing_seen(before);
    reveal_strlit("KLD:");
    assert("KLD:"@.len() == 4);
    lemma_first_here(key, "KLD:"@, sp + d + rest);
    lemma_plain_number(sp, d, dot, rest);
    assert(l.take(key.len() as int) =~= key);
    let k = text::lowercase(text::trimmed(key));
    lemma_keys(k);
}

/// A text that begins with one of the names begins with no other.
proof fn lemma_keys(k: Seq<char>)
    ensures
        "mean"@.is_prefix_of(k) ==> k.len() >= 4 && k[0] == 'm' && k[1] == 'e' && k[2] == 'a',
        "max"@.is_prefix_of(k) ==> k.len() >= 3 && k[0] == 'm' && k[1] == 'a',
        "median"@.is_prefix_of(k) ==> k.len() >= 6 && k[0] == 'm' && k[1] == 'e' && k[2] == 'd',
        "99.9"@.is_prefix_of(k) ==> k.len() >= 4 && k[0] == '9' && k[1] == '9' && k[3] == '9',
        "99.0"@.is_prefix_of(k) ==> k.len() >= 4 && k[0] == '9' && k[1] == '9' && k[3] == '0',
        "90.0"@.is_prefix_of(k) ==> k.len() >= 4 && k[0] == '9' && k[1] == '0',
        k == "99%"@ ==> k.len() == 3 && k[0] == '9' && k[1] == '9',
        k == "90%"@ ==> k.len() == 3 && k[0] == '9' && k[1] == '0',
{
    reveal_strlit("mean");
    reveal_strlit("max");
    reveal_strlit("median");
    reveal_strlit("99.9");
    reveal_strlit("99.0");
    reveal_strlit("90.0");
    reveal_strlit("99%");
    reveal_strlit("90%");
    if "mean"@.is_prefix_of(k) {
        let p = k.subrange(0, 4);
        assert(p[0] == k[0] && p[1] == k[1] && p[2] == k[2]);
    }
    if "max"@.is_prefix_of(k) {
        let p = k.subrange(0, 3);
        assert(p[0] == k[0] && p[1] == k[1]);
    }
    if "median"@.is_prefix_of(k) {
        let p = k.subrange(0, 6);
        assert(p[0] == k[0] && p[1] == k[1] && p[2] == k[2]);
    }
    if "99.9"@.is_prefix_of(k) {
        let p = k.subrange(0, 4);
        assert(p[0] == k[0] && p[1] == k[1] && p[3] == k[3]);
    }
    if "99.0"@.is_prefix_of(k) {
        let p = k.subrange(0, 4);
        assert(p[0] == k[0] && p[1] == k[1] && p[3] == k[3]);
    }
    if "90.0"@.is_prefix_of(k) {
        let p = k.subrange(0, 4);
        assert(p[0] == k[0] && p[1] == k[1]);
    }
}

/// The line that says how often the same token comes first is read as such and changes nothing
/// else.
pub proof fn law_same_top_is_read(
    a: &str,
    b: &str,
    v: Vec<String>,
    w: Vec<String>,
    l: Seq<char>,
    sp: Seq<char>,
    d: Seq<char>,
    dot: int,
    rest: Seq<char>,
    x: Option<KlReport>,
    y: Option<KlReport>,
)
    requires
        call_ensures(lines, (a,), v),
        call_ensures(lines, (b,), w),
        text::text_models(w@) == text::text_models(v@).push(l),
        l == "Same top p:"@ + (sp + d + rest),
        !text::is_space(l.last()),
        stands_nowhere(l, "KLD:"@),
        only_spaces(sp),
        is_plain_number(d, dot),
        ends_a_number(rest),
        call_ensures(parse_kl_report, (a,), x),
        call_ensures(parse_kl_report, (b,), y),
    ensures
        y is Some,
        said(y) == (perplexity::KlModel { same_top: Some(d), seen: true, ..said(x) }),
{
    let before = text::text_models(v@);
    assert(before.push(l).drop_last() =~= before);
    reveal_strlit("Same top p:");
    assert(l[0] == 'S');
    text::laws::lemma_trimmed_plain(l);
    lemma_nothing_seen(before);
    lemma_nowhere(l, "KLD:"@);
    lemma_plain_number(sp, d, dot, rest);
    assert(l.subrange(0, 11) =~= "Same top p:"@);
    assert(text::after(l, 11) =~= sp + d + rest);
}

/// The lines of a text are what stands between its line breaks: none of them has one in it, and
/// joined again they are the text, but for a break at its very end and for carriage returns.
pub proof fn law_lines(s: &str, r: Vec<String>, i: int, j: int)
    requires
        call_ensures(lines, (s,), r),
    ensures
        0 <= i < r@.len() && 0 <= j < r@[i]@.len() ==> r@[i]@[j] != '\n',
        (forall|k: int| 0 <= k < s@.len() ==> #[trigger] s@[k] != '\r') && s@.len() > 0 && s@.last()
            != '\n' ==> text::laws::joined(text::text_models(r@), '\n') == s@,
{
    let p = text::pieces(s@, '\n');
    text::laws::lemma_pieces(s@, '\n');
    let m = text::text_models(r@);
    let q = if p.last().len() == 0 {
        p.drop_last()
    } else {
        p
    };
    assert(m == perplexity::lines_of(s@));
    assert(m.len() == r@.len() && m.len() == q.len());
    if 0 <= i < r@.len() && 0 <= j < r@[i]@.len() {
        assert(m[i] == r@[i]@);
        assert(m[i] == perplexity::without_return(q[i]));
        assert(m[i][j] == q[i][j]);
        assert(q[i] == p[i]);
        assert(p[i][j] != '\n');
    }
    if (forall|k: int| 0 <= k < s@.len() ==> #[trigger] s@[k] != '\r') && s@.len() > 0 && s@.last()
        != '\n' {
        lemma_no_return(s@);
        assert(p.last().len() > 0) by {
            let u = text::pieces(s@.drop_last(), '\n');
            assert(p.last() == u.last().push(s@.last()));
        }
        assert(m =~= p) by {
            assert forall|k: int| 0 <= k < p.len() implies m[k] == p[k] by {
                assert(m[k] == perplexity::without_return(p[k]));
                if p[k].len() > 0 {
                    assert(p[k][p[k].len() - 1] != '\r');
                }
            }
        }
    }
}

/// Where a text has no carriage return, its parts have none.
proof fn lemma_no_return(s: Seq<char>)
    requires
        forall|k: int| 0 <= k < s.len() ==> #[trigger] s[k] != '\r',
    ensures
        forall|i: int, j: int|
            0 <= i < text::pieces(s, '\n').len() && 0 <= j < text::pieces(s, '\n')[i].len()
                ==> #[trigger] text::pieces(s, '\n')[i][j] != '\r',
    decreases s.len(),
{
    if s.len() > 0 {
        let before = s.drop_last();
        assert forall|k: int| 0 <= k < before.len() implies #[trigger] before[k] != '\r' by {
            assert(s[k] != '\r');
        }
        lemma_no_return(before);
        text::laws::lemma_pieces(before, '\n');
        let q = text::pieces(before, '\n');
        let p = text::pieces(s, '\n');
        assert forall|i: int, j: int| 0 <= i < p.len() && 0 <= j < p[i].len() implies #[trigger]
        p[i][j] != '\r' by {
            assert(s[s.len() - 1] != '\r');
            if i < q.len() - 1 || (i == q.len() - 1 && s.last() == '\n') {
                assert(p[i] == q[i]);
                assert(q[i][j] != '\r');
            } else if s.last() != '\n' {
                if j < p[i].len() - 1 {
                    assert(q[q.len() - 1][j] == p[i][j]);
                }
            }
        }
    }
}

/// The last lines of a text: all of them where there are no more, and otherwise so many from the
/// end, with a line break between each two.
pub proof fn law_last_lines(s: &str, n: usize, v: Vec<String>, r: String)
    requires
        call_ensures(lines, (s,), v),
        call_ensures(tail, (s, n), r),
    ensures
        ({
            let all = text::text_models(v@);
            let k = if all.len() <= n {
                0
            } else {
                all.len() - n
            };
            r@ == text::laws::joined(all.subrange(k, all.len() as int), '\n')
        }),
{
    let all = text::text_models(v@);
    assert(all.subrange(0, all.len() as int) =~= all);
    let k = if all.len() <= n {
        0
    } else {
        all.len() - n
    };
    lemma_joined(all.subrange(k, all.len() as int));
}

/// Joining with a line break.
proof fn lemma_joined(parts: Seq<Seq<char>>)
    ensures
        perplexity::joined(parts) == text::laws::joined(parts, '\n'),
    decreases parts.len(),
{
    reveal_strlit("\n");
    if parts.len() > 1 {
        lemma_joined(parts.drop_last());
        let j = text::laws::joined(parts.drop_last(), '\n');
        assert(j + "\n"@ + parts.last() =~= j.push('\n') + parts.last());
    }
}

/// A run of the program names the model behind `-m` and the text behind `-f`; a run that makes a
/// reference also names its file; a run that compares names the file and asks for the comparison.
/// Further arguments stand behind these as they were given.
pub proof fn law_arguments(
    model: &str,
    corpus: &str,
    base: &str,
    extra: &[String],
    ppl: Vec<String>,
    make: Vec<String>,
    compare: Vec<String>,
)
    requires
        call_ensures(perplexity_args, (model, corpus, extra), ppl),
        call_ensures(kl_base_args, (model, corpus, base, extra), make),
        call_ensures(kl_args, (model, base, extra), compare),
    ensures
        text::text_models(ppl@) == seq!["-m"@, model@, "-f"@, corpus@] + text::text_models(extra@),
        text::text_models(make@) == seq![
            "-m"@,
            model@,
            "-f"@,
            corpus@,
            "--kl-divergence-base"@,
            base@,
        ] + text::text_models(extra@),
        text::text_models(compare@) == seq![
            "-m"@,
            model@,
            "--kl-divergence-base"@,
            base@,
            "--kl-divergence"@,
        ] + text::text_models(extra@),
{
}

/// The program under its present name comes before the one under its older name.
pub proof fn law_present_program_first(
    present: Option<String>,
    older: Option<String>,
    r: Option<String>,
)
    requires
        call_ensures(find_llama_perplexity, (present, older), r),
    ensures
        present is Some ==> r == present,
        present is None ==> r == older,
{
}

} // verus!
