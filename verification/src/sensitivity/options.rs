//! What is asked of a measurement.
use vstd::prelude::*;
use crate::search;
use crate::search::borrowed;
use crate::sensitivity::Grouping;
use crate::text;

verus! {

/// What is asked of a measurement.
#[derive(Debug)]
pub struct SensitivityOpts {
    pub input: String,
    pub corpus: String,
    pub output: String,
    pub work_dir: Option<String>,
    pub imatrix: Option<String>,
    pub grouping: Option<String>,
    pub ladder: Option<String>,
    pub roles: Option<String>,
    pub max_candidates: Option<usize>,
    pub keep_candidates: bool,
    /// A directory of logits that were captured before.
    pub logits_dir: Option<String>,
    /// The size of the vocabulary, where the captures do not state it.
    pub raw_vocab: Option<usize>,
    /// Further arguments of every run of the model.
    pub llama_args: Vec<String>,
}

impl Default for SensitivityOpts {
    fn default() -> (r: SensitivityOpts)
        ensures
            r.input@.len() == 0,
            r.corpus@.len() == 0,
            r.output@.len() == 0,
            r.work_dir is None,
            r.imatrix is None,
            r.grouping is None,
            r.ladder is None,
            r.roles is None,
            r.max_candidates is None,
            !r.keep_candidates,
            r.logits_dir is None,
            r.raw_vocab is None,
            r.llama_args@.len() == 0,
    {
        SensitivityOpts {
            input: String::new(),
            corpus: String::new(),
            output: String::new(),
            work_dir: None,
            imatrix: None,
            grouping: None,
            ladder: None,
            roles: None,
            max_candidates: None,
            keep_candidates: false,
            logits_dir: None,
            raw_vocab: None,
            llama_args: Vec::new(),
        }
    }
}

/// What to measure and how.
#[derive(Debug)]
pub struct SensitivityPlan {
    pub source: String,
    pub corpus: String,
    pub work_dir: String,
    /// The names of the formats, the cheapest first.
    pub ladder: Vec<String>,
    pub grouping: Grouping,
    /// Candidates stay on disk.
    pub keep_candidates: bool,
    /// The roles to measure, or all.
    pub roles: Option<Vec<String>>,
    /// How many candidates there may be.
    pub max_candidates: Option<usize>,
}

/// The formats that are measured where none are named.
pub open spec fn default_formats() -> Seq<Seq<char>> {
    seq!["Q2_K"@, "Q3_K"@, "Q4_K"@, "Q5_K"@, "Q6_K"@, "Q8_0"@]
}

/// The formats that are measured where none are named.
pub fn default_ladder() -> (r: Vec<String>)
    ensures
        text::text_models(r@) == default_formats(),
        r@.len() == 6,
{
    let mut v: Vec<String> = Vec::new();
    v.push("Q2_K".to_owned());
    v.push("Q3_K".to_owned());
    v.push("Q4_K".to_owned());
    v.push("Q5_K".to_owned());
    v.push("Q6_K".to_owned());
    v.push("Q8_0".to_owned());
    assert(text::text_models(v@) =~= default_formats());
    v
}

impl SensitivityPlan {
    /// A plan that measures each role with the usual formats and at most 256 candidates.
    pub fn new(source: &str, corpus: &str, work_dir: &str) -> (r: SensitivityPlan)
        ensures
            r.source@ == source@,
            r.corpus@ == corpus@,
            r.work_dir@ == work_dir@,
            text::text_models(r.ladder@) == default_formats(),
            r.grouping == Grouping::PerRole,
            !r.keep_candidates,
            r.roles is None,
            r.max_candidates == Some(256usize),
    {
        SensitivityPlan {
            source: source.to_owned(),
            corpus: corpus.to_owned(),
            work_dir: work_dir.to_owned(),
            ladder: default_ladder(),
            grouping: Grouping::PerRole,
            keep_candidates: false,
            roles: None,
            max_candidates: Some(256),
        }
    }
}

/// `s` without the colons and equals signs at its start.
pub open spec fn past_marks(s: Seq<char>) -> Seq<char>
    decreases s.len(),
{
    if s.len() > 0 && (s[0] == ':' || s[0] == '=') {
        past_marks(s.drop_first())
    } else {
        s
    }
}

/// The grouping that a text asks for, in any case; an error with the text in lower case.
pub open spec fn grouping_named(s: Option<Seq<char>>) -> Result<Grouping, Seq<char>> {
    match s {
        None => Ok(Grouping::PerRole),
        Some(t) => {
            let u = text::lowercase(text::trimmed(t));
            match text::stripped_prefix(u, "role-depth"@) {
                Some(rest) => {
                    let n = match text::parsed_up_to(
                        text::trimmed(past_marks(rest)),
                        usize::MAX as nat,
                    ) {
                        Some(n) => n as usize,
                        None => 4usize,
                    };
                    Ok(
                        Grouping::PerRoleDepth {
                            buckets: if n == 0 {
                                1
                            } else {
                                n
                            },
                        },
                    )
                },
                None => if u == "tensor"@ || u == "per-tensor"@ {
                    Ok(Grouping::PerTensor)
                } else if u == "role"@ || u == "per-role"@ {
                    Ok(Grouping::PerRole)
                } else {
                    Err(u)
                },
            }
        },
    }
}

/// A grouping that is not known, in lower case.
#[derive(Debug)]
pub struct UnknownGrouping {
    pub name: String,
}

/// `s` without the colons and equals signs at its start.
fn skip_marks(s: &str) -> (r: &str)
    ensures
        r@ == past_marks(s@),
{
    let n: usize = s.unicode_len();
    let mut i: usize = 0;
    assert(text::after(s@, 0) =~= s@);
    while i < n
        invariant
            i <= n == s@.len(),
            past_marks(text::after(s@, i as int)) == past_marks(s@),
        decreases n - i,
    {
        let ghost rest = text::after(s@, i as int);
        let c = s.get_char(i);
        assert(rest[0] == c);
        if c != ':' && c != '=' {
            return s.substring_char(i, n);
        }
        assert(rest.drop_first() =~= text::after(s@, i + 1));
        i = i + 1;
    }
    s.substring_char(n, n)
}

/// The grouping that a text asks for.
pub fn parse_grouping(s: Option<&str>) -> (r: Result<Grouping, UnknownGrouping>)
    ensures
        match grouping_named(search::maybe_str(s)) {
            Ok(g) => r matches Ok(x) && x == g,
            Err(u) => r matches Err(e) && e.name@ == u,
        },
{
    let t = match s {
        Some(t) => t,
        None => return Ok(Grouping::PerRole),
    };
    let low = text::to_lowercase(text::trim(t));
    let u = low.as_str();
    match text::strip_prefix(u, "role-depth") {
        Some(rest) => {
            let n: usize = match text::parse_up_to(
                text::trim(skip_marks(rest)),
                usize::MAX as u64,
            ) {
                Some(n) => n as usize,
                None => 4,
            };
            return Ok(
                Grouping::PerRoleDepth {
                    buckets: if n == 0 {
                        1
                    } else {
                        n
                    },
                },
            );
        },
        None => {},
    }
    if text::same(u, "tensor") || text::same(u, "per-tensor") {
        Ok(Grouping::PerTensor)
    } else if text::same(u, "role") || text::same(u, "per-role") {
        Ok(Grouping::PerRole)
    } else {
        Err(UnknownGrouping { name: low })
    }
}

/// The formats that a text names, between its commas.
pub open spec fn formats_named(s: Option<Seq<char>>) -> Seq<Seq<char>> {
    match s {
        None => default_formats(),
        Some(t) => text::pieces(t, ','),
    }
}

/// The formats that a text names, between its commas.
pub fn parse_ladder(s: Option<&str>) -> (r: Vec<String>)
    ensures
        text::text_models(r@) == formats_named(search::maybe_str(s)),
        r@.len() > 0,
{
    match s {
        None => default_ladder(),
        Some(t) => text::split(t, ','),
    }
}

/// The texts without white space around them, and without those that have nothing else.
pub open spec fn trimmed_all(parts: Seq<Seq<char>>) -> Seq<Seq<char>>
    decreases parts.len(),
{
    if parts.len() == 0 {
        Seq::empty()
    } else {
        let before = trimmed_all(parts.drop_last());
        let t = text::trimmed(parts.last());
        if t.len() == 0 {
            before
        } else {
            before.push(t)
        }
    }
}

/// The roles that a text names, between its commas.
pub fn parse_roles(s: &str) -> (r: Vec<String>)
    ensures
        text::text_models(r@) == trimmed_all(text::pieces(s@, ',')),
{
    let parts = text::split(s, ',');
    let ghost m = text::text_models(parts@);
    let n: usize = parts.len();
    let mut out: Vec<String> = Vec::new();
    let mut i: usize = 0;
    assert(text::text_models(out@) =~= trimmed_all(m.subrange(0, 0)));
    while i < n
        invariant
            i <= n == parts@.len(),
            m == text::text_models(parts@),
            text::text_models(out@) == trimmed_all(m.subrange(0, i as int)),
        decreases n - i,
    {
        let ghost had = out@;
        let ghost longer = m.subrange(0, i + 1);
        assert(longer.drop_last() =~= m.subrange(0, i as int));
        assert(longer.last() == parts@[i as int]@);
        let t = text::trim(parts[i].as_str());
        if t.unicode_len() > 0 {
            out.push(t.to_owned());
            assert(text::text_models(out@) =~= text::text_models(had).push(t@));
        }
        i = i + 1;
    }
    assert(m.subrange(0, n as int) =~= m);
    out
}

/// The plan that the options ask for, with candidates in `work_dir`. Candidates that others score
/// stay on disk.
pub fn plan_of(opts: &SensitivityOpts, work_dir: &str) -> (r: Result<
    SensitivityPlan,
    UnknownGrouping,
>)
    ensures
        match grouping_named(search::maybe(opts.grouping)) {
            Err(u) => r matches Err(e) && e.name@ == u,
            Ok(g) => r matches Ok(p) && {
                &&& p.source@ == opts.input@
                &&& p.corpus@ == opts.corpus@
                &&& p.work_dir@ == work_dir@
                &&& p.grouping == g
                &&& text::text_models(p.ladder@) == formats_named(search::maybe(opts.ladder))
                &&& p.keep_candidates == (opts.keep_candidates || opts.logits_dir is Some)
                &&& p.max_candidates == match opts.max_candidates {
                    Some(n) => Some(n),
                    None => Some(256usize),
                }
                &&& match opts.roles {
                    None => p.roles is None,
                    Some(s) => p.roles matches Some(v) && text::text_models(v@) == trimmed_all(
                        text::pieces(s@, ','),
                    ),
                }
            },
        },
{
    let mut p = SensitivityPlan::new(opts.input.as_str(), opts.corpus.as_str(), work_dir);
    p.grouping =
    match parse_grouping(borrowed(&opts.grouping)) {
        Ok(g) => g,
        Err(e) => return Err(e),
    };
    p.ladder = parse_ladder(borrowed(&opts.ladder));
    p.keep_candidates = opts.keep_candidates || opts.logits_dir.is_some();
    p.max_candidates =
    match opts.max_candidates {
        Some(n) => Some(n),
        None => Some(256),
    };
    p.roles =
    match &opts.roles {
        Some(s) => Some(parse_roles(s.as_str())),
        None => None,
    };
    Ok(p)
}

} // verus!
