//! Searching a recipe under a byte budget: what is asked for, which tensors take part, and what the
//! recipe says of itself.
use vstd::prelude::*;
use crate::common;
use crate::common::{parse_bytes, BudgetError};
use crate::gguf::geometry;
use crate::gguf::geometry::{count_elems, is_float_type, packed_nbytes_of};
use crate::gguf::reader::TensorInfo;
use crate::inspect;
use crate::inspect::bytes_of;
use crate::names::NameMap;
use crate::quantize;
use crate::quantize::Policy;
use crate::tally;
use crate::tally::{tally, Entry, EntryModel, Tally};
use crate::text;

pub mod laws;

verus! {

/// What to search.
#[derive(Debug)]
pub struct SearchOpts {
    pub input: String,
    /// The byte budget, which may be missing where the whole front is asked for.
    pub budget: Option<String>,
    pub imatrix: Option<String>,
    pub recipe_base: Option<String>,
    pub output: Option<String>,
    pub validate: bool,
    pub calib: Option<String>,
    /// A table of measured sensitivity.
    pub sensitivity: Option<String>,
    /// `rel` or `abs`.
    pub metric: Option<String>,
    /// Print the front of sizes and costs.
    pub pareto: bool,
    /// The name of a ladder or a list of formats.
    pub ladder: Option<String>,
}

impl Default for SearchOpts {
    fn default() -> (r: SearchOpts)
        ensures
            r.input@.len() == 0,
            r.budget is None,
            r.imatrix is None,
            r.recipe_base is None,
            r.output is None,
            !r.validate,
            r.calib is None,
            r.sensitivity is None,
            r.metric is None,
            !r.pareto,
            r.ladder is None,
    {
        SearchOpts {
            input: String::new(),
            budget: None,
            imatrix: None,
            recipe_base: None,
            output: None,
            validate: false,
            calib: None,
            sensitivity: None,
            metric: None,
            pareto: false,
            ladder: None,
        }
    }
}

/// A text that may be missing.
pub open spec fn maybe(s: Option<String>) -> Option<Seq<char>> {
    match s {
        Some(t) => Some(t@),
        None => None,
    }
}

/// A text that may be missing.
pub open spec fn maybe_str(s: Option<&str>) -> Option<Seq<char>> {
    match s {
        Some(t) => Some(t@),
        None => None,
    }
}

/// A text that may be missing.
fn owned(s: Option<&str>) -> (r: Option<String>)
    ensures
        maybe(r) == maybe_str(s),
{
    match s {
        Some(t) => Some(t.to_owned()),
        None => None,
    }
}

/// A text that may be missing.
pub fn borrowed(s: &Option<String>) -> (r: Option<&str>)
    ensures
        maybe_str(r) == maybe(*s),
{
    match s {
        Some(t) => Some(t.as_str()),
        None => None,
    }
}

impl SearchOpts {
    /// The options of a search that needs only the basics.
    pub fn basic(
        input: &str,
        budget: &str,
        imatrix: Option<&str>,
        recipe_base: Option<&str>,
        out: Option<&str>,
        validate: bool,
        calib: Option<&str>,
    ) -> (r: SearchOpts)
        ensures
            r.input@ == input@,
            maybe(r.budget) == Some(budget@),
            maybe(r.imatrix) == maybe_str(imatrix),
            maybe(r.recipe_base) == maybe_str(recipe_base),
            maybe(r.output) == maybe_str(out),
            r.validate == validate,
            maybe(r.calib) == maybe_str(calib),
            r.sensitivity is None,
            r.metric is None,
            !r.pareto,
            r.ladder is None,
    {
        SearchOpts {
            input: input.to_owned(),
            budget: Some(budget.to_owned()),
            imatrix: owned(imatrix),
            recipe_base: owned(recipe_base),
            output: owned(out),
            validate,
            calib: owned(calib),
            sensitivity: None,
            metric: None,
            pareto: false,
            ladder: None,
        }
    }
}

/// The formats that a search may use.
#[derive(Debug)]
pub enum Ladder {
    KQuant,
    IQuant,
    Full,
    BlockFloat,
    /// The formats with these names.
    Named(Vec<String>),
}

/// The formats that a search may use.
pub enum LadderModel {
    KQuant,
    IQuant,
    Full,
    BlockFloat,
    Named(Seq<Seq<char>>),
}

impl View for Ladder {
    type V = LadderModel;

    open spec fn view(&self) -> LadderModel {
        match self {
            Ladder::KQuant => LadderModel::KQuant,
            Ladder::IQuant => LadderModel::IQuant,
            Ladder::Full => LadderModel::Full,
            Ladder::BlockFloat => LadderModel::BlockFloat,
            Ladder::Named(v) => LadderModel::Named(text::text_models(v@)),
        }
    }
}

/// The ladder that a text asks for: one of the named ones, in any case, or the formats between its
/// commas.
pub open spec fn ladder_named(s: Option<Seq<char>>) -> LadderModel {
    match s {
        None => LadderModel::KQuant,
        Some(t) => {
            let u = text::lowercase(text::trimmed(t));
            if u == "kquant"@ || u == "k"@ {
                LadderModel::KQuant
            } else if u == "iquant"@ || u == "iq"@ {
                LadderModel::IQuant
            } else if u == "full"@ || u == "all"@ {
                LadderModel::Full
            } else if u == "blockfloat"@ || u == "mx"@ || u == "fp4"@ {
                LadderModel::BlockFloat
            } else {
                LadderModel::Named(text::pieces(t, ','))
            }
        },
    }
}

/// The ladder that a text asks for.
pub fn resolve_ladder(s: Option<&str>) -> (r: Ladder)
    ensures
        r@ == ladder_named(maybe_str(s)),
{
    let t = match s {
        Some(t) => t,
        None => return Ladder::KQuant,
    };
    let low = text::to_lowercase(text::trim(t));
    let u = low.as_str();
    if text::same(u, "kquant") || text::same(u, "k") {
        Ladder::KQuant
    } else if text::same(u, "iquant") || text::same(u, "iq") {
        Ladder::IQuant
    } else if text::same(u, "full") || text::same(u, "all") {
        Ladder::Full
    } else if text::same(u, "blockfloat") || text::same(u, "mx") || text::same(u, "fp4") {
        Ladder::BlockFloat
    } else {
        Ladder::Named(text::split(t, ','))
    }
}

/// A search without a usable budget.
#[derive(Debug, Clone, Copy, PartialEq, Eq, Structural)]
pub enum SearchError {
    /// No budget, and the front is not asked for.
    NoBudget,
    Budget(BudgetError),
    /// No tensor can be searched.
    NothingToSearch,
}

/// The budget of a search: none only where the front is asked for.
pub open spec fn budget_of(budget: Option<Seq<char>>, pareto: bool) -> Result<
    Option<u64>,
    SearchError,
> {
    match budget {
        Some(s) => match common::bytes_stated(s) {
            Ok(n) => Ok(Some(n)),
            Err(e) => Err(SearchError::Budget(e)),
        },
        None => if pareto {
            Ok(None)
        } else {
            Err(SearchError::NoBudget)
        },
    }
}

/// The budget of a search.
pub fn read_budget(opts: &SearchOpts) -> (r: Result<Option<u64>, SearchError>)
    ensures
        r == budget_of(maybe(opts.budget), opts.pareto),
{
    match &opts.budget {
        Some(s) => match parse_bytes(s.as_str()) {
            Ok(n) => Ok(Some(n)),
            Err(e) => Err(SearchError::Budget(e)),
        },
        None => if opts.pareto {
            Ok(None)
        } else {
            Err(SearchError::NoBudget)
        },
    }
}

/// The part that a tensor takes in a search.
#[derive(Debug, Clone, Copy, PartialEq, Eq, Structural)]
pub enum Part {
    /// It stays as the recipe has it and takes so many bytes.
    Fixed(u64),
    /// Its type is searched for.
    Searched,
}

/// A tensor is fixed where the recipe wants floats, where it may not be quantized, and where it has
/// no columns.
pub open spec fn is_fixed(t: TensorInfo, quantizable: bool, policy: Policy) -> bool {
    geometry::is_float(policy.ggml_type) || !quantizable || quantize::rows_cols_of(t.dims@).1 == 0
}

/// The part that a tensor takes; a fixed one takes the bytes that the recipe gives it.
pub open spec fn part_of(t: TensorInfo, quantizable: bool, policy: Policy) -> Part {
    if is_fixed(t, quantizable, policy) {
        Part::Fixed(
            if policy.copy_unchanged {
                inspect::size_or_zero(t)
            } else {
                match geometry::packed_size(
                    policy.ggml_type,
                    geometry::elem_count(t.dims@)->0 as nat,
                ) {
                    Ok(b) => b,
                    Err(_) => 0,
                }
            },
        )
    } else {
        Part::Searched
    }
}

/// A tensor that may not be quantized, or that the recipe keeps in floats, is never searched,
/// whatever the ladder is.
pub proof fn law_protected_tensors_are_fixed(t: TensorInfo, quantizable: bool, policy: Policy)
    requires
        !quantizable || geometry::is_float(policy.ggml_type),
    ensures
        part_of(t, quantizable, policy) is Fixed,
{
}

/// Whether a tensor is fixed.
pub fn must_be_fixed(t: &TensorInfo, quantizable: bool, policy: Policy) -> (r: bool)
    ensures
        r == is_fixed(*t, quantizable, policy),
{
    let (_, cols) = t.rows_cols();
    is_float_type(policy.ggml_type) || !quantizable || cols == 0
}

/// The part that a tensor takes in a search.
pub fn classify(t: &TensorInfo, quantizable: bool, policy: Policy) -> (r: Part)
    requires
        is_fixed(*t, quantizable, policy) && !policy.copy_unchanged ==> geometry::elem_count(t.dims@)
            is Some,
    ensures
        r == part_of(*t, quantizable, policy),
{
    if must_be_fixed(t, quantizable, policy) {
        if policy.copy_unchanged {
            return Part::Fixed(bytes_of(t));
        }
        let n: u64 = match count_elems(t.dims.as_slice()) {
            Some(n) => n,
            None => 0,
        };
        match packed_nbytes_of(policy.ggml_type, n) {
            Ok(b) => Part::Fixed(b),
            Err(_) => Part::Fixed(0),
        }
    } else {
        Part::Searched
    }
}

/// The part of a tensor after its elements have been read and its costs worked out: it is fixed at
/// its size in the source where there are none.
pub fn settle(t: &TensorInfo, elements: usize, points: usize) -> (r: Part)
    ensures
        r == if elements == 0 || points == 0 {
            Part::Fixed(inspect::size_or_zero(*t))
        } else {
            Part::Searched
        },
{
    if elements == 0 || points == 0 {
        Part::Fixed(bytes_of(t))
    } else {
        Part::Searched
    }
}

/// How many tensors are searched.
pub open spec fn searched_count(parts: Seq<Part>) -> nat
    decreases parts.len(),
{
    if parts.len() == 0 {
        0
    } else {
        searched_count(parts.drop_last()) + if parts.last() == Part::Searched {
            1nat
        } else {
            0
        }
    }
}

/// How many tensors are searched; an error where none is.
pub fn count_searched(parts: &[Part]) -> (r: Result<usize, SearchError>)
    ensures
        match r {
            Ok(n) => n == searched_count(parts@) && n > 0,
            Err(e) => searched_count(parts@) == 0 && e == SearchError::NothingToSearch,
        },
{
    let n: usize = parts.len();
    let mut count: usize = 0;
    let mut i: usize = 0;
    while i < n
        invariant
            i <= n == parts@.len(),
            count == searched_count(parts@.subrange(0, i as int)),
            count <= i,
        decreases n - i,
    {
        let ghost longer = parts@.subrange(0, i + 1);
        assert(longer.drop_last() =~= parts@.subrange(0, i as int));
        if parts[i] == Part::Searched {
            count = count + 1;
        }
        i = i + 1;
    }
    assert(parts@.subrange(0, n as int) =~= parts@);
    if count == 0 {
        Err(SearchError::NothingToSearch)
    } else {
        Ok(count)
    }
}

/// A tensor with what was chosen for it.
#[derive(Debug)]
pub struct Chosen {
    pub role: String,
    /// The bytes of each point of its curve.
    pub points: Vec<u64>,
    pub choice: usize,
    /// The bytes it takes where there is no such point.
    pub fixed_bytes: u64,
}

/// The bytes that a tensor takes.
pub open spec fn chosen_bytes(c: Chosen) -> u64 {
    if c.choice < c.points@.len() {
        c.points@[c.choice as int]
    } else {
        c.fixed_bytes
    }
}

/// The tensors under their roles, with the bytes they take.
pub open spec fn chosen_entries(chosen: Seq<Chosen>) -> Seq<EntryModel> {
    Seq::new(
        chosen.len(),
        |i: int|
            EntryModel {
                key: chosen[i].role@,
                first: chosen_bytes(chosen[i]) as nat,
                second: 0,
            },
    )
}

/// Where the bytes went, by role.
pub fn bytes_by_role(chosen: &[Chosen]) -> (r: NameMap<Tally>)
    ensures
        r.wf(),
        tally::tallied(r@, chosen_entries(chosen@)),
{
    let n: usize = chosen.len();
    let mut entries: Vec<Entry> = Vec::new();
    let mut i: usize = 0;
    while i < n
        invariant
            i <= n == chosen@.len(),
            entries@.len() == i,
            forall|j: int| 0 <= j < i ==> (#[trigger] entries@[j])@ == chosen_entries(chosen@)[j],
        decreases n - i,
    {
        let c = &chosen[i];
        let bytes: u64 = if c.choice < c.points.len() {
            c.points[c.choice]
        } else {
            c.fixed_bytes
        };
        entries.push(Entry { key: c.role.clone(), first: bytes, second: 0 });
        i = i + 1;
    }
    assert(tally::entry_models(entries@) =~= chosen_entries(chosen@));
    tally(entries.as_slice())
}

/// What a searched recipe says of itself; `cost` is the total cost as text.
pub open spec fn header_text(
    input: Seq<char>,
    budget: u64,
    allocated: u64,
    fixed: u64,
    searchable: nat,
    upgrades: nat,
    cost_source: Seq<char>,
    cost: Seq<char>,
) -> Seq<char> {
    "Auto-searched recipe from `requant search`\nsource     : "@ + input + "\nbudget     : "@
        + common::bytes_text(budget) + "\nallocated  : "@ + common::bytes_text(allocated)
        + "\nfixed      : "@ + common::bytes_text(fixed) + "\nsearchable : "@ + text::decimal(
        searchable,
    ) + " tensors, "@ + text::decimal(upgrades) + " upgraded above floor\ncost source: "@
        + cost_source + "\ntotal cost : "@ + cost
}

/// What a searched recipe says of itself.
pub fn recipe_header(
    input: &str,
    budget: u64,
    allocated: u64,
    fixed: u64,
    searchable: usize,
    upgrades: usize,
    cost_source: &str,
    cost: &str,
) -> (r: String)
    ensures
        r@ == header_text(
            input@,
            budget,
            allocated,
            fixed,
            searchable as nat,
            upgrades as nat,
            cost_source@,
            cost@,
        ),
{
    let mut s: String = "Auto-searched recipe from `requant search`\nsource     : ".to_owned();
    s.append(input);
    s.append("\nbudget     : ");
    s.append(common::fmt_bytes(budget).as_str());
    s.append("\nallocated  : ");
    s.append(common::fmt_bytes(allocated).as_str());
    s.append("\nfixed      : ");
    s.append(common::fmt_bytes(fixed).as_str());
    s.append("\nsearchable : ");
    text::push_decimal(&mut s, searchable as u64);
    s.append(" tensors, ");
    text::push_decimal(&mut s, upgrades as u64);
    s.append(" upgraded above floor\ncost source: ");
    s.append(cost_source);
    s.append("\ntotal cost : ");
    s.append(cost);
    s
}

} // verus!
