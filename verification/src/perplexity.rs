//! Reading the reports of `llama-perplexity`, and its arguments.
//!
//! The reports come mid-line and with changing columns, so every reader looks for keywords. Numbers
//! are handed on as texts.
use vstd::prelude::*;
use crate::text;

pub mod laws;

verus! {

/// The lines of a text, without what ends them.
pub open spec fn lines_of(s: Seq<char>) -> Seq<Seq<char>> {
    let p = text::pieces(s, '\n');
    let q = if p.last().len() == 0 {
        p.drop_last()
    } else {
        p
    };
    q.map_values(|l: Seq<char>| without_return(l))
}

/// A line without the carriage return at its end.
pub open spec fn without_return(l: Seq<char>) -> Seq<char> {
    if l.len() > 0 && l.last() == '\r' {
        l.drop_last()
    } else {
        l
    }
}

/// The lines of a text.
pub fn lines(s: &str) -> (r: Vec<String>)
    ensures
        text::text_models(r@) == lines_of(s@),
{
    let mut parts = text::split(s, '\n');
    let ghost p = text::text_models(parts@);
    let n0: usize = parts.len();
    let last_empty: bool = parts[n0 - 1].as_str().unicode_len() == 0;
    assert(p.last() == parts@[n0 - 1]@);
    let n: usize = if last_empty {
        n0 - 1
    } else {
        n0
    };
    let mut out: Vec<String> = Vec::new();
    let mut i: usize = 0;
    while i < n
        invariant
            i <= n <= parts@.len(),
            out@.len() == i,
            forall|j: int| 0 <= j < i ==> (#[trigger] out@[j])@ == without_return(parts@[j]@),
        decreases n - i,
    {
        let l = parts[i].as_str();
        let len: usize = l.unicode_len();
        if len > 0 && l.get_char(len - 1) == '\r' {
            let cut = l.substring_char(0, len - 1);
            assert(cut@ =~= l@.drop_last());
            out.push(cut.to_owned());
        } else {
            out.push(l.to_owned());
        }
        i = i + 1;
    }
    assert(text::text_models(out@) =~= lines_of(s@));
    out
}

/// Texts with line breaks between them.
pub open spec fn joined(parts: Seq<Seq<char>>) -> Seq<char>
    decreases parts.len(),
{
    if parts.len() == 0 {
        Seq::empty()
    } else if parts.len() == 1 {
        parts[0]
    } else {
        joined(parts.drop_last()) + "\n"@ + parts.last()
    }
}

/// The last `n` lines of a text.
pub open spec fn tail_of(s: Seq<char>, n: nat) -> Seq<char> {
    let l = lines_of(s);
    joined(
        if l.len() <= n {
            l
        } else {
            l.subrange(l.len() - n, l.len() as int)
        },
    )
}

/// The last `n` lines of a text.
pub fn tail(s: &str, n: usize) -> (r: String)
    ensures
        r@ == tail_of(s@, n as nat),
{
    let all = lines(s);
    let ghost m = text::text_models(all@);
    let len: usize = all.len();
    let start: usize = if len <= n {
        0
    } else {
        len - n
    };
    let ghost part = m.subrange(start as int, len as int);
    let mut out = String::new();
    let mut i: usize = start;
    assert(part.subrange(0, 0) =~= Seq::empty());
    while i < len
        invariant
            start <= i <= len == all@.len(),
            m == text::text_models(all@),
            part == m.subrange(start as int, len as int),
            out@ == joined(part.subrange(0, i - start)),
        decreases len - i,
    {
        let ghost longer = part.subrange(0, i + 1 - start);
        assert(longer.drop_last() =~= part.subrange(0, i - start));
        assert(longer.last() == all@[i as int]@);
        if i > start {
            out.append("\n");
        } else {
            assert(out@ =~= Seq::empty());
            assert(longer[0] == all@[i as int]@);
        }
        out.append(all[i].as_str());
        assert(out@ =~= joined(longer));
        i = i + 1;
    }
    assert(part.subrange(0, len - start) =~= part);
    assert(m.subrange(0, len as int) =~= m);
    out
}

/// What can still come in a number.
pub struct Scan {
    pub dot_seen: bool,
    pub e_seen: bool,
}

/// How many characters from `at` on extend a number that began with digits at `first`.
pub open spec fn scanned(s: Seq<char>, first: int, at: int, st: Scan) -> int
    decreases s.len() - at,
{
    if at >= s.len() || at < 0 {
        at
    } else if text::is_digit(s[at]) {
        scanned(s, first, at + 1, st)
    } else if s[at] == '.' && !st.dot_seen && !st.e_seen {
        scanned(s, first, at + 1, Scan { dot_seen: true, ..st })
    } else if (s[at] == 'e' || s[at] == 'E') && !st.e_seen && at > first {
        let next = at + 1;
        let behind = if next < s.len() && (s[next] == '+' || s[next] == '-') {
            next + 1
        } else {
            next
        };
        scanned(s, first, behind, Scan { e_seen: true, ..st })
    } else {
        at
    }
}

/// Whether a text has a sign at its start.
pub open spec fn sign_length(s: Seq<char>) -> int {
    if s.len() > 0 && (s[0] == '+' || s[0] == '-') {
        1
    } else {
        0
    }
}

/// The longest start of `s`, behind white space, that can be part of a number.
pub open spec fn number_start(s: Seq<char>) -> Seq<char> {
    let t = text::after(s, text::leading_spaces(s));
    t.take(scanned(t, sign_length(t), sign_length(t), Scan { dot_seen: false, e_seen: false }))
}

/// Digits, a dot and further digits, with at least one digit.
pub open spec fn is_mantissa(s: Seq<char>) -> bool {
    &&& exists|i: int| 0 <= i < s.len() && text::is_digit(#[trigger] s[i])
    &&& forall|i: int| 0 <= i < s.len() ==> text::is_digit(#[trigger] s[i]) || s[i] == '.'
    &&& forall|i: int, j: int|
        0 <= i < j < s.len() ==> !(#[trigger] s[i] == '.' && #[trigger] s[j] == '.')
}

/// A decimal number: an optional sign, a mantissa, and an optional exponent with a sign of its own.
pub open spec fn is_number(s: Seq<char>) -> bool {
    let t = text::after(s, sign_length(s));
    ||| is_mantissa(t)
    ||| exists|p: int|
        {
            &&& 0 <= p < t.len()
            &&& #[trigger] t[p] == 'e' || t[p] == 'E'
            &&& is_mantissa(t.take(p))
            &&& text::all_digits(
                text::after(text::after(t, p + 1), sign_length(text::after(t, p + 1))),
            )
        }
}

/// Whether characters are digits, a dot and further digits, with at least one digit.
fn check_mantissa(c: &[char], from: usize, to: usize) -> (r: bool)
    requires
        from <= to <= c@.len(),
    ensures
        r == is_mantissa(c@.subrange(from as int, to as int)),
{
    let ghost m = c@.subrange(from as int, to as int);
    let mut digit: bool = false;
    let mut dot: bool = false;
    let mut i: usize = from;
    while i < to
        invariant
            from <= i <= to <= c@.len(),
            m == c@.subrange(from as int, to as int),
            digit <==> exists|j: int| 0 <= j < i - from && text::is_digit(#[trigger] m[j]),
            dot <==> exists|j: int| 0 <= j < i - from && #[trigger] m[j] == '.',
            forall|j: int| 0 <= j < i - from ==> text::is_digit(#[trigger] m[j]) || m[j] == '.',
            forall|j: int, k: int|
                0 <= j < k < i - from ==> !(#[trigger] m[j] == '.' && #[trigger] m[k] == '.'),
        decreases to - i,
    {
        let x = c[i];
        assert(m[i - from] == x);
        if '0' <= x && x <= '9' {
            digit = true;
        } else if x == '.' {
            if dot {
                proof {
                    let j = choose|j: int| 0 <= j < i - from && #[trigger] m[j] == '.';
                    assert(m[j] == '.' && m[i - from] == '.');
                }
                return false;
            }
            dot = true;
        } else {
            return false;
        }
        i = i + 1;
    }
    digit
}

/// Whether characters are digits, and at least one.
fn check_digits(c: &[char], from: usize, to: usize) -> (r: bool)
    requires
        from <= to <= c@.len(),
    ensures
        r == text::all_digits(c@.subrange(from as int, to as int)),
{
    let ghost m = c@.subrange(from as int, to as int);
    let mut i: usize = from;
    while i < to
        invariant
            from <= i <= to <= c@.len(),
            m == c@.subrange(from as int, to as int),
            forall|j: int| 0 <= j < i - from ==> text::is_digit(#[trigger] m[j]),
        decreases to - i,
    {
        let x = c[i];
        assert(m[i - from] == x);
        if !('0' <= x && x <= '9') {
            return false;
        }
        i = i + 1;
    }
    from < to
}

/// Whether the first `n` characters are a decimal number.
fn check_number(c: &[char], n: usize) -> (r: bool)
    requires
        n <= c@.len(),
    ensures
        r == is_number(c@.take(n as int)),
{
    let ghost s = c@.take(n as int);
    let first: usize = if n > 0 && (c[0] == '+' || c[0] == '-') {
        1
    } else {
        0
    };
    let ghost t = text::after(s, sign_length(s));
    assert(t =~= c@.subrange(first as int, n as int));
    let mut p: usize = first;
    while p < n && c[p] != 'e' && c[p] != 'E'
        invariant
            first <= p <= n <= c@.len(),
            forall|j: int| first <= j < p ==> #[trigger] c@[j] != 'e' && c@[j] != 'E',
        decreases n - p,
    {
        p = p + 1;
    }
    if p == n {
        proof {
            assert forall|q: int| 0 <= q < t.len() implies #[trigger] t[q] != 'e' && t[q]
                != 'E' by {
                assert(t[q] == c@[first + q]);
            }
        }
        return check_mantissa(c, first, n);
    }
    let head: bool = check_mantissa(c, first, p);
    let q: usize = if p + 1 < n && (c[p + 1] == '+' || c[p + 1] == '-') {
        p + 2
    } else {
        p + 1
    };
    let digits: bool = check_digits(c, q, n);
    proof {
        let k = p - first;
        let e = text::after(t, k + 1);
        assert(t[k] == c@[p as int]);
        assert(t.take(k) =~= c@.subrange(first as int, p as int));
        assert(e =~= c@.subrange(p + 1, n as int));
        assert(text::after(e, sign_length(e)) =~= c@.subrange(q as int, n as int));
        assert(!is_mantissa(t)) by {
            if is_mantissa(t) {
                assert(text::is_digit(t[k]) || t[k] == '.');
            }
        }
        assert forall|x: int| 0 <= x < t.len() && (#[trigger] t[x] == 'e' || t[x] == 'E')
            && is_mantissa(t.take(x)) implies x == k by {
            if x > k {
                assert(t.take(x)[k] == t[k]);
                assert(text::is_digit(t.take(x)[k]) || t.take(x)[k] == '.');
            } else if x < k {
                assert(t[x] == c@[first + x]);
            }
        }
    }
    head && digits
}

/// How many characters extend a number that began with digits at `first`.
fn scan(c: &[char], first: usize) -> (r: usize)
    requires
        first <= c@.len(),
    ensures
        r == scanned(c@, first as int, first as int, Scan { dot_seen: false, e_seen: false }),
        first <= r <= c@.len(),
{
    let n: usize = c.len();
    let mut dot_seen: bool = false;
    let mut e_seen: bool = false;
    let mut at: usize = first;
    let ghost whole = scanned(
        c@,
        first as int,
        first as int,
        Scan { dot_seen: false, e_seen: false },
    );
    while at < n
        invariant
            first <= at <= n == c@.len(),
            whole == scanned(c@, first as int, at as int, Scan { dot_seen, e_seen }),
            whole == scanned(
                c@,
                first as int,
                first as int,
                Scan { dot_seen: false, e_seen: false },
            ),
        decreases n - at,
    {
        let x = c[at];
        if '0' <= x && x <= '9' {
            at = at + 1;
        } else if x == '.' && !dot_seen && !e_seen {
            dot_seen = true;
            at = at + 1;
        } else if (x == 'e' || x == 'E') && !e_seen && at > first {
            e_seen = true;
            at = at + 1;
            if at < n && (c[at] == '+' || c[at] == '-') {
                at = at + 1;
            }
        } else {
            return at;
        }
    }
    at
}

/// The first number of a text, behind white space; none where the text does not begin with one.
pub open spec fn number_in(s: Seq<char>) -> Option<Seq<char>> {
    if is_number(number_start(s)) {
        Some(number_start(s))
    } else {
        None
    }
}

/// The first number of a text, behind white space; none where the text does not begin with one.
pub fn first_number(s: &str) -> (r: Option<String>)
    ensures
        match r {
            Some(t) => number_in(s@) == Some(t@),
            None => number_in(s@) is None,
        },
{
    let t = text::trim_start(s);
    let c = text::chars_of(t);
    let n: usize = c.len();
    let first: usize = if n > 0 && (c[0] == '+' || c[0] == '-') {
        1
    } else {
        0
    };
    assert(first == sign_length(t@));
    let end: usize = scan(c.as_slice(), first);
    if check_number(c.as_slice(), end) {
        let u = t.substring_char(0, end);
        assert(u@ =~= number_start(s@));
        Some(u.to_owned())
    } else {
        None
    }
}

/// The result of a perplexity run, its numbers as texts.
#[derive(Debug)]
pub struct PplResult {
    pub ppl: String,
    /// The uncertainty, where one is reported.
    pub stderr: Option<String>,
}

/// What a [`PplResult`] stands for.
pub struct PplModel {
    pub ppl: Seq<char>,
    pub stderr: Option<Seq<char>>,
}

impl View for PplResult {
    type V = PplModel;

    open spec fn view(&self) -> PplModel {
        PplModel {
            ppl: self.ppl@,
            stderr: match self.stderr {
                Some(e) => Some(e@),
                None => None,
            },
        }
    }
}

/// The uncertainty that a line reports.
pub open spec fn error_in(rest: Seq<char>) -> Option<Seq<char>> {
    match text::found(rest, "+/-"@) {
        Some(i) => number_in(text::after(rest, i + 3)),
        None => match text::found(rest, "±"@) {
            Some(i) => number_in(text::after(rest, i + 1)),
            None => None,
        },
    }
}

/// The perplexity that a line reports behind this keyword.
pub open spec fn ppl_behind(l: Seq<char>, needle: Seq<char>) -> Option<PplModel> {
    match text::found(l, needle) {
        Some(i) => {
            let rest = text::after(l, i + needle.len());
            match number_in(rest) {
                Some(v) => Some(PplModel { ppl: v, stderr: error_in(rest) }),
                None => None,
            }
        },
        None => None,
    }
}

/// The perplexity that a line reports.
pub open spec fn ppl_in(l: Seq<char>) -> Option<PplModel> {
    match ppl_behind(l, "PPL ="@) {
        Some(r) => Some(r),
        None => match ppl_behind(l, "ppl ="@) {
            Some(r) => Some(r),
            None => ppl_behind(l, "perplexity:"@),
        },
    }
}

/// The perplexity that the last such line reports.
pub open spec fn ppl_of(l: Seq<Seq<char>>) -> Option<PplModel>
    decreases l.len(),
{
    if l.len() == 0 {
        None
    } else {
        match ppl_in(text::trimmed(l.last())) {
            Some(r) => Some(r),
            None => ppl_of(l.drop_last()),
        }
    }
}

/// The text behind the first `needle`.
fn behind<'a>(l: &'a str, needle: &str) -> (r: Option<&'a str>)
    ensures
        match r {
            Some(t) => text::found(l@, needle@) matches Some(i) && t@ == text::after(
                l@,
                i + needle@.len(),
            ),
            None => text::found(l@, needle@) is None,
        },
{
    match text::find(l, needle) {
        Some(i) => {
            let n: usize = needle.unicode_len();
            let m: usize = l.unicode_len();
            Some(l.substring_char(i + n, m))
        },
        None => None,
    }
}

/// The uncertainty that a line reports.
fn find_error(rest: &str) -> (r: Option<String>)
    ensures
        match r {
            Some(t) => error_in(rest@) == Some(t@),
            None => error_in(rest@) is None,
        },
{
    proof {
        reveal_strlit("+/-");
        reveal_strlit("±");
    }
    match behind(rest, "+/-") {
        Some(t) => first_number(t),
        None => match behind(rest, "±") {
            Some(t) => first_number(t),
            None => None,
        },
    }
}

/// The perplexity that a line reports behind a keyword.
fn find_ppl(l: &str, needle: &str) -> (r: Option<PplResult>)
    ensures
        match r {
            Some(p) => ppl_behind(l@, needle@) == Some(p@),
            None => ppl_behind(l@, needle@) is None,
        },
{
    match behind(l, needle) {
        Some(rest) => match first_number(rest) {
            Some(ppl) => Some(PplResult { ppl, stderr: find_error(rest) }),
            None => None,
        },
        None => None,
    }
}

/// Reads the final perplexity of a report: of the last line that has one.
pub fn parse_ppl(report: &str) -> (r: Option<PplResult>)
    ensures
        match r {
            Some(p) => ppl_of(lines_of(report@)) == Some(p@),
            None => ppl_of(lines_of(report@)) is None,
        },
{
    let all = lines(report);
    let ghost m = text::text_models(all@);
    let n: usize = all.len();
    let mut i: usize = n;
    assert(m.subrange(0, n as int) =~= m);
    while i > 0
        invariant
            i <= n == all@.len(),
            m == text::text_models(all@),
            m == lines_of(report@),
            ppl_of(m) == ppl_of(m.subrange(0, i as int)),
        decreases i,
    {
        i = i - 1;
        let ghost part = m.subrange(0, i + 1);
        assert(part.drop_last() =~= m.subrange(0, i as int));
        assert(part.last() == all@[i as int]@);
        let l = text::trim(all[i].as_str());
        match find_ppl(l, "PPL =") {
            Some(p) => return Some(p),
            None => {},
        }
        match find_ppl(l, "ppl =") {
            Some(p) => return Some(p),
            None => {},
        }
        match find_ppl(l, "perplexity:") {
            Some(p) => return Some(p),
            None => {},
        }
    }
    None
}

/// The statistics of a report on KL divergence, as texts; each may be missing.
#[derive(Debug)]
pub struct KlReport {
    pub mean: Option<String>,
    pub max: Option<String>,
    pub median: Option<String>,
    pub p99: Option<String>,
    pub p90: Option<String>,
    /// How often the same token comes first, in hundredths.
    pub same_top: Option<String>,
}

/// What has been read of a report.
pub struct KlModel {
    pub mean: Option<Seq<char>>,
    pub max: Option<Seq<char>>,
    pub median: Option<Seq<char>>,
    pub p99: Option<Seq<char>>,
    pub p90: Option<Seq<char>>,
    pub same_top: Option<Seq<char>>,
    pub seen: bool,
}

/// Nothing has been read.
pub open spec fn nothing_read() -> KlModel {
    KlModel { mean: None, max: None, median: None, p99: None, p90: None, same_top: None, seen: false }
}

/// What a line adds under this key, which is in lower case.
pub open spec fn with_key(st: KlModel, key: Seq<char>, v: Seq<char>) -> KlModel {
    let st = KlModel { seen: true, ..st };
    if text::stripped_prefix(key, "mean"@) is Some {
        KlModel { mean: Some(v), ..st }
    } else if text::stripped_prefix(key, "max"@) is Some {
        KlModel { max: Some(v), ..st }
    } else if text::stripped_prefix(key, "median"@) is Some {
        KlModel { median: Some(v), ..st }
    } else if text::stripped_prefix(key, "99.9"@) is Some {
        st
    } else if text::stripped_prefix(key, "99.0"@) is Some || key == "99%"@ {
        KlModel { p99: Some(v), ..st }
    } else if text::stripped_prefix(key, "90.0"@) is Some || key == "90%"@ {
        KlModel { p90: Some(v), ..st }
    } else {
        st
    }
}

/// What a line adds, from which white space has been trimmed.
pub open spec fn with_line(st: KlModel, l: Seq<char>) -> KlModel {
    match text::found(l, "KLD:"@) {
        Some(i) => match number_in(text::after(l, i + 4)) {
            Some(v) => with_key(st, text::lowercase(text::trimmed(l.take(i))), v),
            None => st,
        },
        None => match text::stripped_prefix(l, "Same top p:"@) {
            Some(rest) => match number_in(rest) {
                Some(v) => KlModel { same_top: Some(v), seen: true, ..st },
                None => st,
            },
            None => st,
        },
    }
}

/// What lines say.
pub open spec fn kl_of(l: Seq<Seq<char>>) -> KlModel
    decreases l.len(),
{
    if l.len() == 0 {
        nothing_read()
    } else {
        with_line(kl_of(l.drop_last()), text::trimmed(l.last()))
    }
}

/// A text that may be missing.
pub open spec fn maybe(s: Option<String>) -> Option<Seq<char>> {
    match s {
        Some(t) => Some(t@),
        None => None,
    }
}

impl KlReport {
    /// What a report stands for.
    pub open spec fn model(self, seen: bool) -> KlModel {
        KlModel {
            mean: maybe(self.mean),
            max: maybe(self.max),
            median: maybe(self.median),
            p99: maybe(self.p99),
            p90: maybe(self.p90),
            same_top: maybe(self.same_top),
            seen,
        }
    }

    /// Takes a number under its key, which is in lower case.
    fn take_key(&mut self, key: &str, v: String)
        ensures
            forall|seen: bool| #[trigger]
                final(self).model(true) == with_key(old(self).model(seen), key@, v@),
    {
        if text::starts_with(key, "mean") {
            self.mean = Some(v);
        } else if text::starts_with(key, "max") {
            self.max = Some(v);
        } else if text::starts_with(key, "median") {
            self.median = Some(v);
        } else if text::starts_with(key, "99.9") {
        } else if text::starts_with(key, "99.0") || text::same(key, "99%") {
            self.p99 = Some(v);
        } else if text::starts_with(key, "90.0") || text::same(key, "90%") {
            self.p90 = Some(v);
        }
    }
}

/// Reads the statistics of a report on KL divergence; none where it has none.
pub fn parse_kl_report(report: &str) -> (r: Option<KlReport>)
    ensures
        match r {
            Some(k) => kl_of(lines_of(report@)) == k.model(true),
            None => !kl_of(lines_of(report@)).seen,
        },
{
    let all = lines(report);
    let ghost m = text::text_models(all@);
    let n: usize = all.len();
    let mut k = KlReport {
        mean: None,
        max: None,
        median: None,
        p99: None,
        p90: None,
        same_top: None,
    };
    let mut seen: bool = false;
    let mut i: usize = 0;
    proof {
        reveal_strlit("KLD:");
    }
    assert(m.subrange(0, 0) =~= Seq::empty());
    while i < n
        invariant
            i <= n == all@.len(),
            m == text::text_models(all@),
            "KLD:"@.len() == 4,
            kl_of(m.subrange(0, i as int)) == k.model(seen),
        decreases n - i,
    {
        let ghost longer = m.subrange(0, i + 1);
        let ghost before = k;
        assert(longer.drop_last() =~= m.subrange(0, i as int));
        assert(longer.last() == all@[i as int]@);
        let l = text::trim(all[i].as_str());
        match text::find(l, "KLD:") {
            Some(p) => {
                let len: usize = l.unicode_len();
                let rest = l.substring_char(p + 4, len);
                assert(rest@ =~= text::after(l@, p + 4));
                match first_number(rest) {
                    Some(v) => {
                        let head = l.substring_char(0, p);
                        assert(head@ =~= l@.take(p as int));
                        let key = text::to_lowercase(text::trim(head));
                        k.take_key(key.as_str(), v);
                        seen = true;
                    },
                    None => {},
                }
            },
            None => match text::strip_prefix(l, "Same top p:") {
                Some(rest) => match first_number(rest) {
                    Some(v) => {
                        k.same_top = Some(v);
                        seen = true;
                    },
                    None => {},
                },
                None => {},
            },
        }
        i = i + 1;
    }
    assert(m.subrange(0, n as int) =~= m);
    if seen {
        Some(k)
    } else {
        None
    }
}

/// The binary that measures perplexity: the one with the present name, else the one with the older
/// name.
pub fn find_llama_perplexity(present: Option<String>, older: Option<String>) -> (r: Option<String>)
    ensures
        r == match present {
            Some(s) => Some(s),
            None => older,
        },
{
    match present {
        Some(s) => Some(s),
        None => older,
    }
}

/// Appends copies of texts.
fn push_texts(v: &mut Vec<String>, more: &[String])
    ensures
        text::text_models(final(v)@) == text::text_models(old(v)@) + text::text_models(more@),
{
    let n: usize = more.len();
    let mut i: usize = 0;
    assert(text::text_models(v@) =~= text::text_models(old(v)@) + text::text_models(
        more@,
    ).subrange(0, 0));
    while i < n
        invariant
            i <= n == more@.len(),
            text::text_models(v@) == text::text_models(old(v)@) + text::text_models(
                more@,
            ).subrange(0, i as int),
        decreases n - i,
    {
        let ghost had = v@;
        v.push(more[i].clone());
        i = i + 1;
        assert(text::text_models(v@) =~= text::text_models(had).push(more@[i - 1]@));
        assert(text::text_models(v@) =~= text::text_models(old(v)@) + text::text_models(
            more@,
        ).subrange(0, i as int));
    }
    assert(text::text_models(more@).subrange(0, n as int) =~= text::text_models(more@));
}

/// The arguments of a perplexity run.
pub fn perplexity_args(model: &str, corpus: &str, extra: &[String]) -> (r: Vec<String>)
    ensures
        text::text_models(r@) == seq!["-m"@, model@, "-f"@, corpus@] + text::text_models(extra@),
{
    let mut v: Vec<String> = Vec::new();
    v.push("-m".to_owned());
    v.push(model.to_owned());
    v.push("-f".to_owned());
    v.push(corpus.to_owned());
    assert(text::text_models(v@) =~= seq!["-m"@, model@, "-f"@, corpus@]);
    push_texts(&mut v, extra);
    v
}

/// The arguments of a run that writes the reference of later comparisons.
pub fn kl_base_args(model: &str, corpus: &str, base: &str, extra: &[String]) -> (r: Vec<String>)
    ensures
        text::text_models(r@) == seq![
            "-m"@,
            model@,
            "-f"@,
            corpus@,
            "--kl-divergence-base"@,
            base@,
        ] + text::text_models(extra@),
{
    let mut v: Vec<String> = Vec::new();
    v.push("-m".to_owned());
    v.push(model.to_owned());
    v.push("-f".to_owned());
    v.push(corpus.to_owned());
    v.push("--kl-divergence-base".to_owned());
    v.push(base.to_owned());
    assert(text::text_models(v@) =~= seq![
        "-m"@,
        model@,
        "-f"@,
        corpus@,
        "--kl-divergence-base"@,
        base@,
    ]);
    push_texts(&mut v, extra);
    v
}

/// The arguments of a run that compares a model with the reference.
pub fn kl_args(model: &str, base: &str, extra: &[String]) -> (r: Vec<String>)
    ensures
        text::text_models(r@) == seq![
            "-m"@,
            model@,
            "--kl-divergence-base"@,
            base@,
            "--kl-divergence"@,
        ] + text::text_models(extra@),
{
    let mut v: Vec<String> = Vec::new();
    v.push("-m".to_owned());
    v.push(model.to_owned());
    v.push("--kl-divergence-base".to_owned());
    v.push(base.to_owned());
    v.push("--kl-divergence".to_owned());
    assert(text::text_models(v@) =~= seq![
        "-m"@,
        model@,
        "--kl-divergence-base"@,
        base@,
        "--kl-divergence"@,
    ]);
    push_texts(&mut v, extra);
    v
}

/// The last line that reports a perplexity counts: what stands before it cannot hide it, and lines
/// behind it that report none change nothing.
pub proof fn law_last_estimate_counts(before: Seq<Seq<char>>, l: Seq<char>)
    ensures
        ppl_in(text::trimmed(l)) is Some ==> ppl_of(before.push(l)) == ppl_in(text::trimmed(l)),
        ppl_in(text::trimmed(l)) is None ==> ppl_of(before.push(l)) == ppl_of(before),
{
    assert(before.push(l).drop_last() =~= before);
}

/// Lines without statistics change nothing in a report on KL divergence, wherever they stand.
pub proof fn law_other_lines_are_harmless(before: Seq<Seq<char>>, l: Seq<char>)
    requires
        text::found(text::trimmed(l), "KLD:"@) is None,
        text::stripped_prefix(text::trimmed(l), "Same top p:"@) is None,
    ensures
        kl_of(before.push(l)) == kl_of(before),
{
    assert(before.push(l).drop_last() =~= before);
}

} // verus!
