//! What a search promises: which tensors take part, and what it is asked for.
use vstd::prelude::*;
use crate::common::{parse_bytes, BudgetError};
use crate::gguf::geometry;
use crate::gguf::geometry::packed_nbytes_of;
use crate::gguf::reader::{tensor_nbytes, TensorInfo};
use crate::gguf::geometry::TensorError;
use crate::gguf::value::GgufError;
use crate::names::NameMap;
use crate::search;
use crate::search::{
    bytes_by_role, classify, count_searched, must_be_fixed, read_budget, recipe_header,
    resolve_ladder, settle, Chosen, Ladder, LadderModel, Part, SearchError, SearchOpts,
};
use crate::quantize::Policy;
use crate::tally::Tally;
use crate::text;

verus! {

/// A tensor without columns: without dimensions, or with a row of no elements.
pub open spec fn has_no_columns(t: TensorInfo) -> bool {
    ||| t.dims@.len() == 0
    ||| t.dims@.len() == 1 && t.dims@[0] as usize == 0
    ||| t.dims@.len() >= 2 && t.dims@[1] as usize == 0
}

/// A tensor that may be quantized, that the recipe does not keep in floats and that has columns is
/// searched, whatever the number of its dimensions; it is fixed only where one of these fails.
pub proof fn law_every_other_tensor_is_searched(
    t: &TensorInfo,
    quantizable: bool,
    policy: Policy,
    fixed: bool,
    part: Part,
)
    requires
        call_ensures(must_be_fixed, (t, quantizable, policy), fixed),
        call_ensures(classify, (t, quantizable, policy), part),
    ensures
        fixed <==> !quantizable || policy.ggml_type == 0 || policy.ggml_type == 1
            || policy.ggml_type == 30 || has_no_columns(*t),
        part == Part::Searched <==> !fixed,
{
}

/// A fixed tensor takes the bytes that it has where the recipe copies it, and otherwise those of its
/// elements in the type of the recipe; nothing where they cannot be told.
pub proof fn law_fixed_tensors_take_the_bytes_of_the_recipe(
    t: &TensorInfo,
    quantizable: bool,
    policy: Policy,
    part: Part,
    own: Result<u64, TensorError>,
    n: u64,
    packed: Result<u64, GgufError>,
)
    requires
        call_ensures(classify, (t, quantizable, policy), part),
        part is Fixed,
        call_ensures(tensor_nbytes, (t,), own),
        geometry::elem_count(t.dims@) == Some(n),
        call_ensures(packed_nbytes_of, (policy.ggml_type, n), packed),
    ensures
        ({
            let size = if policy.copy_unchanged {
                match own {
                    Ok(b) => b,
                    Err(_) => 0,
                }
            } else {
                match packed {
                    Ok(b) => b,
                    Err(_) => 0,
                }
            };
            part == Part::Fixed(size)
        }),
{
}

/// A tensor without elements or without points to choose from stays at its size in the source; any
/// other is searched.
pub proof fn law_tensors_with_points_are_searched(
    t: &TensorInfo,
    elements: usize,
    points: usize,
    part: Part,
    own: Result<u64, TensorError>,
)
    requires
        call_ensures(settle, (t, elements, points), part),
        call_ensures(tensor_nbytes, (t,), own),
    ensures
        part == Part::Searched <==> elements > 0 && points > 0,
        part matches Part::Fixed(b) ==> b == match own {
            Ok(x) => x,
            Err(_) => 0,
        },
{
}

/// The searched tensors are counted one by one, and a search without any is refused.
pub proof fn law_searched_tensors_are_counted(
    a: &[Part],
    b: &[Part],
    p: Part,
    x: Result<usize, SearchError>,
    y: Result<usize, SearchError>,
)
    requires
        b@ == a@.push(p),
        call_ensures(count_searched, (a,), x),
        call_ensures(count_searched, (b,), y),
    ensures
        a@.len() == 0 ==> x == Err::<usize, _>(SearchError::NothingToSearch),
        p != Part::Searched ==> x == y,
        p == Part::Searched ==> y == Ok::<usize, SearchError>(
            match x {
                Ok(n) => (n + 1) as usize,
                Err(_) => 1,
            },
        ),
{
    assert(b@.drop_last() =~= a@);
}

/// A budget may be missing only where the whole front is asked for. A budget that is stated is the
/// number of bytes that its text stands for, or the reason why it stands for none, whether or not
/// the front is asked for.
pub proof fn law_budgets(
    opts: &SearchOpts,
    r: Result<Option<u64>, SearchError>,
    s: &str,
    bytes: Result<u64, BudgetError>,
)
    requires
        call_ensures(read_budget, (opts,), r),
        opts.budget is Some ==> s@ == opts.budget->0@ && call_ensures(parse_bytes, (s,), bytes),
    ensures
        opts.budget is None && opts.pareto ==> r == Ok::<Option<u64>, SearchError>(None),
        opts.budget is None && !opts.pareto ==> r == Err::<Option<u64>, _>(SearchError::NoBudget),
        opts.budget is Some ==> r == match bytes {
            Ok(n) => Ok(Some(n)),
            Err(e) => Err(SearchError::Budget(e)),
        },
{
}

/// The ladders by their names, with spaces around them and in any case: the k-quants where nothing
/// is said. Any other text is a list of formats between commas.
pub proof fn law_ladders_by_name(s: Option<&str>, r: Ladder)
    requires
        call_ensures(resolve_ladder, (s,), r),
    ensures
        s is None ==> r@ == LadderModel::KQuant,
        s matches Some(t) ==> {
            let u = text::lowercase(text::trimmed(t@));
            &&& r@ == LadderModel::KQuant <==> u == "kquant"@ || u == "k"@
            &&& r@ == LadderModel::IQuant <==> u == "iquant"@ || u == "iq"@
            &&& r@ == LadderModel::Full <==> u == "full"@ || u == "all"@
            &&& r@ == LadderModel::BlockFloat <==> u == "blockfloat"@ || u == "mx"@ || u == "fp4"@
            &&& r@ matches LadderModel::Named(v) ==> v == text::pieces(t@, ',')
        },
{
    reveal_strlit("kquant");
    reveal_strlit("k");
    reveal_strlit("iquant");
    reveal_strlit("iq");
    reveal_strlit("full");
    reveal_strlit("all");
    reveal_strlit("blockfloat");
    reveal_strlit("mx");
    reveal_strlit("fp4");
    assert("kquant"@.len() == 6 && "kquant"@[0] == 'k');
    assert("iquant"@.len() == 6 && "iquant"@[0] == 'i');
    assert("k"@.len() == 1);
    assert("iq"@.len() == 2 && "iq"@[0] == 'i');
    assert("mx"@.len() == 2 && "mx"@[0] == 'm');
    assert("full"@.len() == 4);
    assert("all"@.len() == 3 && "all"@[0] == 'a');
    assert("fp4"@.len() == 3 && "fp4"@[0] == 'f');
    assert("blockfloat"@.len() == 10);
}

/// Every tensor is counted under its role with the bytes of the point that was chosen for it, or
/// with its fixed bytes where there is no such point: with one tensor more, only the sum under its
/// role grows.
pub proof fn law_chosen_bytes_go_to_their_role(
    a: &[Chosen],
    b: &[Chosen],
    c: Chosen,
    x: NameMap<Tally>,
    y: NameMap<Tally>,
    role: Seq<char>,
)
    requires
        b@ == a@.push(c),
        call_ensures(bytes_by_role, (a,), x),
        call_ensures(bytes_by_role, (b,), y),
    ensures
        y@.dom().contains(c.role@),
        role != c.role@ ==> (x@.dom().contains(role) <==> y@.dom().contains(role)),
        role != c.role@ && x@.dom().contains(role) ==> x@[role] == y@[role],
        ({
            let bytes = if c.choice < c.points@.len() {
                c.points@[c.choice as int]
            } else {
                c.fixed_bytes
            };
            let (n, sum) = if x@.dom().contains(c.role@) {
                (x@[c.role@].count as int, x@[c.role@].first as int)
            } else {
                (0, 0)
            };
            y@[c.role@].count == n + 1 && y@[c.role@].first == sum + bytes
        }),
        a@.len() == 0 ==> !x@.dom().contains(role),
{
    let (p, q) = (search::chosen_entries(a@), search::chosen_entries(b@));
    assert(q.drop_last() =~= p);
    assert(q.last() == search::chosen_entries(b@)[a@.len() as int]);
    crate::tally::lemma_none_at(p, c.role@);
    crate::tally::lemma_none_at(p, role);
}

/// What a recipe says of itself stands line by line: the source, the budget, what was allocated and
/// what was fixed, how many tensors were searched and how many of them were raised, and where the
/// costs come from and what they add up to.
pub proof fn law_header_lines(
    input: &str,
    budget: u64,
    allocated: u64,
    fixed: u64,
    searchable: usize,
    upgrades: usize,
    cost_source: &str,
    cost: &str,
    r: String,
)
    requires
        call_ensures(
            recipe_header,
            (input, budget, allocated, fixed, searchable, upgrades, cost_source, cost),
            r,
        ),
    ensures
        r@ == "Auto-searched recipe from `requant search`"@ + ("\nsource     : "@ + input@) + (
        "\nbudget     : "@ + crate::common::bytes_text(budget)) + ("\nallocated  : "@
            + crate::common::bytes_text(allocated)) + ("\nfixed      : "@
            + crate::common::bytes_text(fixed)) + ("\nsearchable : "@ + text::decimal(
            searchable as nat,
        ) + " tensors, "@ + text::decimal(upgrades as nat) + " upgraded above floor"@) + (
        "\ncost source: "@ + cost_source@) + ("\ntotal cost : "@ + cost@),
{
    reveal_strlit("Auto-searched recipe from `requant search`");
    reveal_strlit("Auto-searched recipe from `requant search`\nsource     : ");
    reveal_strlit("\nsource     : ");
    reveal_strlit(" upgraded above floor\ncost source: ");
    reveal_strlit(" upgraded above floor");
    reveal_strlit("\ncost source: ");
    assert("Auto-searched recipe from `requant search`\nsource     : "@
        =~= "Auto-searched recipe from `requant search`"@ + "\nsource     : "@);
    assert(" upgraded above floor\ncost source: "@ =~= " upgraded above floor"@
        + "\ncost source: "@);
    let whole = "Auto-searched recipe from `requant search`"@ + ("\nsource     : "@ + input@) + (
    "\nbudget     : "@ + crate::common::bytes_text(budget)) + ("\nallocated  : "@
        + crate::common::bytes_text(allocated)) + ("\nfixed      : "@ + crate::common::bytes_text(
        fixed,
    )) + ("\nsearchable : "@ + text::decimal(searchable as nat) + " tensors, "@ + text::decimal(
        upgrades as nat,
    ) + " upgraded above floor"@) + ("\ncost source: "@ + cost_source@) + ("\ntotal cost : "@
        + cost@);
    assert(r@ =~= whole);
}

/// The basic options are what they are called with, each in its own place, and no others are set.
pub proof fn law_basic_options(
    input: &str,
    budget: &str,
    imatrix: &str,
    recipe_base: &str,
    out: &str,
    validate: bool,
    calib: &str,
    r: SearchOpts,
    bare: SearchOpts,
)
    requires
        call_ensures(
            SearchOpts::basic,
            (
                input,
                budget,
                Some(imatrix),
                Some(recipe_base),
                Some(out),
                validate,
                Some(calib),
            ),
            r,
        ),
        call_ensures(SearchOpts::basic, (input, budget, None, None, None, validate, None), bare),
    ensures
        r.input@ == input@ && bare.input@ == input@,
        r.budget is Some && r.budget->0@ == budget@ && bare.budget is Some && bare.budget->0@
            == budget@,
        r.imatrix is Some && r.imatrix->0@ == imatrix@ && bare.imatrix is None,
        r.recipe_base is Some && r.recipe_base->0@ == recipe_base@ && bare.recipe_base is None,
        r.output is Some && r.output->0@ == out@ && bare.output is None,
        r.calib is Some && r.calib->0@ == calib@ && bare.calib is None,
        r.validate == validate && bare.validate == validate,
        r.sensitivity is None && r.metric is None && !r.pareto && r.ladder is None,
{
}

} // verus!
