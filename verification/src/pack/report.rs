//! What packing does, summed up.
use vstd::prelude::*;
use crate::names::NameMap;
use crate::pack;
use crate::pack::output;
use crate::pack::{quant_name, PackPlan, PackRole, Planned, PlannedModel};
use crate::tally;
use crate::tally::{tally, Entry, EntryModel, Tally};

verus! {

/// One role: its tensors with the bytes before and after packing, and how many there are of each
/// type.
#[derive(Debug)]
pub struct RoleReport {
    pub role: String,
    pub total: Tally,
    pub types: NameMap<Tally>,
}

/// The tensors with rows of one length that did not get the type of the recipe, by the type they
/// got.
#[derive(Debug)]
pub struct FallbackReport {
    pub cols: usize,
    pub types: NameMap<Tally>,
}

/// What packing does.
#[derive(Debug)]
pub struct PackReport {
    pub roles: Vec<RoleReport>,
    pub src_bytes: u128,
    pub out_bytes: u128,
    /// The bytes that a text model reads: all but those of the vision tower.
    pub resident: u128,
    pub fallbacks: Vec<FallbackReport>,
}

/// The type that a tensor has in the pack.
pub open spec fn kind_of(p: PlannedModel) -> Seq<char> {
    match p.plan {
        PackPlan::Passthrough => p.src_dtype.name_of(),
        PackPlan::Quantize { ggml_type, .. } => pack::pack_type_name(ggml_type),
    }
}

/// The tensors by their roles, with their bytes before and after packing.
pub open spec fn role_entries(planned: Seq<PlannedModel>) -> Seq<EntryModel> {
    Seq::new(
        planned.len(),
        |i: int|
            EntryModel {
                key: planned[i].role.label_of(),
                first: planned[i].src_bytes,
                second: planned[i].out_bytes,
            },
    )
}

/// The tensors of a role by their types.
pub open spec fn type_entries(planned: Seq<PlannedModel>, role: Seq<char>) -> Seq<EntryModel>
    decreases planned.len(),
{
    if planned.len() == 0 {
        Seq::empty()
    } else {
        let before = type_entries(planned.drop_last(), role);
        let p = planned.last();
        if p.role.label_of() == role {
            before.push(EntryModel { key: kind_of(p), first: 0, second: 0 })
        } else {
            before
        }
    }
}

/// The length of the rows of a tensor that did not get the type of the recipe.
pub open spec fn fallback_cols(p: PlannedModel) -> Option<usize> {
    match p.plan {
        PackPlan::Quantize { cols, fell_back, .. } => if fell_back {
            Some(cols)
        } else {
            None
        },
        PackPlan::Passthrough => None,
    }
}

/// The tensors with rows of this length that did not get the type of the recipe, by their types.
pub open spec fn fallback_entries(planned: Seq<PlannedModel>, cols: usize) -> Seq<EntryModel>
    decreases planned.len(),
{
    if planned.len() == 0 {
        Seq::empty()
    } else {
        let before = fallback_entries(planned.drop_last(), cols);
        let p = planned.last();
        if fallback_cols(p) == Some(cols) {
            before.push(EntryModel { key: kind_of(p), first: 0, second: 0 })
        } else {
            before
        }
    }
}

/// The bytes of all tensors before packing.
pub open spec fn source_total(planned: Seq<PlannedModel>) -> nat
    decreases planned.len(),
{
    if planned.len() == 0 {
        0
    } else {
        source_total(planned.drop_last()) + planned.last().src_bytes
    }
}

/// The bytes of all tensors after packing.
pub open spec fn packed_total(planned: Seq<PlannedModel>) -> nat
    decreases planned.len(),
{
    if planned.len() == 0 {
        0
    } else {
        packed_total(planned.drop_last()) + planned.last().out_bytes
    }
}

/// The bytes of all tensors after packing but for the vision tower.
pub open spec fn resident_total(planned: Seq<PlannedModel>) -> nat
    decreases planned.len(),
{
    if planned.len() == 0 {
        0
    } else {
        resident_total(planned.drop_last()) + if planned.last().role == PackRole::Vision {
            0
        } else {
            planned.last().out_bytes
        }
    }
}

/// The report says what happens to these tensors.
pub open spec fn reports(planned: Seq<PlannedModel>, r: PackReport) -> bool {
    &&& r.src_bytes == source_total(planned)
    &&& r.out_bytes == packed_total(planned)
    &&& r.resident == resident_total(planned)
    &&& exists|m: NameMap<Tally>|
        {
            &&& #[trigger] m.wf()
            &&& tally::tallied(m@, role_entries(planned))
            &&& r.roles@.len() == m.items@.len()
            &&& forall|i: int|
                0 <= i < r.roles@.len() ==> {
                    let role = #[trigger] r.roles@[i];
                    &&& role.role@ == m.keys()[i]
                    &&& role.total == m.items@[i].1
                    &&& role.types.wf()
                    &&& tally::tallied(role.types@, type_entries(planned, role.role@))
                }
        }
    &&& forall|i: int, j: int|
        0 <= i < j < r.fallbacks@.len() ==> (#[trigger] r.fallbacks@[i]).cols < (
        #[trigger] r.fallbacks@[j]).cols
    &&& forall|i: int|
        0 <= i < r.fallbacks@.len() ==> {
            let f = #[trigger] r.fallbacks@[i];
            &&& f.types.wf()
            &&& tally::tallied(f.types@, fallback_entries(planned, f.cols))
            &&& exists|k: int| 0 <= k < planned.len() && fallback_cols(#[trigger] planned[k])
                == Some(f.cols)
        }
    &&& forall|k: int|
        0 <= k < planned.len() && fallback_cols(#[trigger] planned[k]) is Some ==> exists|i: int|
            0 <= i < r.fallbacks@.len() && Some((#[trigger] r.fallbacks@[i]).cols)
                == fallback_cols(planned[k])
}

/// The type that a tensor has in the pack.
fn kind(p: &Planned) -> (r: &'static str)
    ensures
        r@ == kind_of(p@),
{
    match p.plan {
        PackPlan::Passthrough => p.src_dtype.name(),
        PackPlan::Quantize { ggml_type, .. } => quant_name(ggml_type),
    }
}

/// The tensors of a role, counted by their types.
fn role_types(planned: &[Planned], role: &str) -> (r: NameMap<Tally>)
    ensures
        r.wf(),
        tally::tallied(r@, type_entries(output::planned_models(planned@), role@)),
{
    let ghost all = output::planned_models(planned@);
    let n: usize = planned.len();
    let mut entries: Vec<Entry> = Vec::new();
    let mut i: usize = 0;
    assert(tally::entry_models(entries@) =~= type_entries(all.subrange(0, 0), role@));
    while i < n
        invariant
            i <= n == planned@.len(),
            all == output::planned_models(planned@),
            tally::entry_models(entries@) == type_entries(all.subrange(0, i as int), role@),
        decreases n - i,
    {
        let ghost longer = all.subrange(0, i + 1);
        let ghost had = entries@;
        assert(longer.drop_last() =~= all.subrange(0, i as int));
        assert(longer.last() == planned@[i as int]@);
        if crate::text::same(planned[i].role.label(), role) {
            entries.push(Entry { key: kind(&planned[i]).to_owned(), first: 0, second: 0 });
            assert(tally::entry_models(entries@) =~= tally::entry_models(had).push(
                EntryModel { key: kind_of(longer.last()), first: 0, second: 0 },
            ));
        }
        i = i + 1;
    }
    assert(all.subrange(0, n as int) =~= all);
    tally(entries.as_slice())
}

/// The length of the rows of a tensor that did not get the type of the recipe.
fn fell_back(p: &Planned) -> (r: Option<usize>)
    ensures
        r == fallback_cols(p@),
{
    match p.plan {
        PackPlan::Quantize { cols, fell_back, .. } => if fell_back {
            Some(cols)
        } else {
            None
        },
        PackPlan::Passthrough => None,
    }
}

/// The tensors with rows of this length that did not get the type of the recipe, counted by type.
fn fallback_types(planned: &[Planned], cols: usize) -> (r: NameMap<Tally>)
    ensures
        r.wf(),
        tally::tallied(r@, fallback_entries(output::planned_models(planned@), cols)),
{
    let ghost all = output::planned_models(planned@);
    let n: usize = planned.len();
    let mut entries: Vec<Entry> = Vec::new();
    let mut i: usize = 0;
    assert(tally::entry_models(entries@) =~= fallback_entries(all.subrange(0, 0), cols));
    while i < n
        invariant
            i <= n == planned@.len(),
            all == output::planned_models(planned@),
            tally::entry_models(entries@) == fallback_entries(all.subrange(0, i as int), cols),
        decreases n - i,
    {
        let ghost longer = all.subrange(0, i + 1);
        let ghost had = entries@;
        assert(longer.drop_last() =~= all.subrange(0, i as int));
        assert(longer.last() == planned@[i as int]@);
        match fell_back(&planned[i]) {
            Some(c) => {
                if c == cols {
                    entries.push(Entry { key: kind(&planned[i]).to_owned(), first: 0, second: 0 });
                    assert(tally::entry_models(entries@) =~= tally::entry_models(had).push(
                        EntryModel { key: kind_of(longer.last()), first: 0, second: 0 },
                    ));
                }
            },
            None => {},
        }
        i = i + 1;
    }
    assert(all.subrange(0, n as int) =~= all);
    tally(entries.as_slice())
}

/// Puts a number into a list in which the numbers grow.
fn insert_sorted(v: &mut Vec<usize>, x: usize)
    requires
        forall|i: int, j: int| 0 <= i < j < old(v)@.len() ==> old(v)@[i] < old(v)@[j],
    ensures
        forall|i: int, j: int| 0 <= i < j < final(v)@.len() ==> final(v)@[i] < final(v)@[j],
        forall|y: usize| #[trigger] final(v)@.contains(y) <==> old(v)@.contains(y) || y == x,
{
    let ghost had = v@;
    let n: usize = v.len();
    let mut p: usize = 0;
    while p < n && v[p] < x
        invariant
            p <= n == v@.len(),
            v@ == had,
            forall|i: int| 0 <= i < p ==> v@[i] < x,
        decreases n - p,
    {
        p = p + 1;
    }
    if p < n && v[p] == x {
        assert(had[p as int] == x);
        return;
    }
    v.insert(p, x);
    proof {
        assert(v@ == had.insert(p as int, x));
        assert forall|y: usize| #[trigger] v@.contains(y) <==> had.contains(y) || y == x by {
            if had.contains(y) {
                let i = choose|i: int| 0 <= i < had.len() && had[i] == y;
                if i < p {
                    assert(v@[i] == y);
                } else {
                    assert(v@[i + 1] == y);
                }
            }
            if y == x {
                assert(v@[p as int] == y);
            }
            if v@.contains(y) {
                let i = choose|i: int| 0 <= i < v@.len() && v@[i] == y;
                if i < p {
                    assert(had[i] == y);
                } else if i > p {
                    assert(had[i - 1] == y);
                }
            }
        }
    }
}

/// The lengths of rows for which some tensor did not get the type of the recipe.
spec fn fallback_lengths(planned: Seq<PlannedModel>, v: Seq<usize>) -> bool {
    &&& forall|i: int, j: int| 0 <= i < j < v.len() ==> v[i] < v[j]
    &&& forall|c: usize| #[trigger]
        v.contains(c) <==> exists|k: int|
            0 <= k < planned.len() && fallback_cols(#[trigger] planned[k]) == Some(c)
}

/// The lengths of rows for which some tensor did not get the type of the recipe, in order.
fn fallback_columns(planned: &[Planned]) -> (r: Vec<usize>)
    ensures
        fallback_lengths(output::planned_models(planned@), r@),
{
    let ghost all = output::planned_models(planned@);
    let n: usize = planned.len();
    let mut v: Vec<usize> = Vec::new();
    let mut i: usize = 0;
    while i < n
        invariant
            i <= n == planned@.len(),
            all == output::planned_models(planned@),
            fallback_lengths(all.subrange(0, i as int), v@),
        decreases n - i,
    {
        let ghost had = all.subrange(0, i as int);
        let ghost longer = all.subrange(0, i + 1);
        let ghost before = v@;
        assert(longer[i as int] == planned@[i as int]@);
        match fell_back(&planned[i]) {
            Some(c) => {
                insert_sorted(&mut v, c);
            },
            None => {},
        }
        proof {
            assert forall|c: usize| #[trigger] v@.contains(c) <==> exists|k: int|
                0 <= k < longer.len() && fallback_cols(#[trigger] longer[k]) == Some(c) by {
                assert(before.contains(c) <==> exists|k: int|
                    0 <= k < had.len() && fallback_cols(#[trigger] had[k]) == Some(c));
                if before.contains(c) {
                    let k = choose|k: int|
                        0 <= k < had.len() && fallback_cols(#[trigger] had[k]) == Some(c);
                    assert(longer[k] == had[k]);
                }
                if exists|k: int|
                    0 <= k < longer.len() && fallback_cols(#[trigger] longer[k]) == Some(c) {
                    let k = choose|k: int|
                        0 <= k < longer.len() && fallback_cols(#[trigger] longer[k]) == Some(c);
                    if k < i {
                        assert(had[k] == longer[k]);
                    }
                }
            }
        }
        i = i + 1;
    }
    assert(all.subrange(0, n as int) =~= all);
    v
}

/// The three sums of a report.
fn totals(planned: &[Planned]) -> (r: (u128, u128, u128))
    ensures
        r.0 == source_total(output::planned_models(planned@)),
        r.1 == packed_total(output::planned_models(planned@)),
        r.2 == resident_total(output::planned_models(planned@)),
{
    let ghost all = output::planned_models(planned@);
    let n: usize = planned.len();
    let mut s: u128 = 0;
    let mut o: u128 = 0;
    let mut res: u128 = 0;
    let mut i: usize = 0;
    while i < n
        invariant
            i <= n == planned@.len(),
            all == output::planned_models(planned@),
            s == source_total(all.subrange(0, i as int)),
            o == packed_total(all.subrange(0, i as int)),
            res == resident_total(all.subrange(0, i as int)),
            s <= i * u64::MAX,
            o <= i * u64::MAX,
            res <= i * u64::MAX,
        decreases n - i,
    {
        let ghost longer = all.subrange(0, i + 1);
        proof {
            assert(longer.drop_last() =~= all.subrange(0, i as int));
            assert(longer.last() == planned@[i as int]@);
            assert(i * u64::MAX + u64::MAX <= u128::MAX) by (nonlinear_arith)
                requires
                    i <= u64::MAX,
            ;
            assert((i + 1) * u64::MAX == i * u64::MAX + u64::MAX);
        }
        s = s + planned[i].src_bytes as u128;
        o = o + planned[i].out_bytes as u128;
        if planned[i].role != PackRole::Vision {
            res = res + planned[i].out_bytes as u128;
        }
        i = i + 1;
    }
    assert(all.subrange(0, n as int) =~= all);
    (s, o, res)
}

/// The tensors by role.
fn role_tally(planned: &[Planned]) -> (r: NameMap<Tally>)
    ensures
        r.wf(),
        tally::tallied(r@, role_entries(output::planned_models(planned@))),
{
    let n: usize = planned.len();
    let mut entries: Vec<Entry> = Vec::new();
    let mut i: usize = 0;
    while i < n
        invariant
            i <= n == planned@.len(),
            entries@.len() == i,
            forall|j: int|
                0 <= j < i ==> (#[trigger] entries@[j])@ == role_entries(
                    output::planned_models(planned@),
                )[j],
        decreases n - i,
    {
        entries.push(
            Entry {
                key: planned[i].role.label().to_owned(),
                first: planned[i].src_bytes,
                second: planned[i].out_bytes,
            },
        );
        i = i + 1;
    }
    assert(tally::entry_models(entries@) =~= role_entries(output::planned_models(planned@)));
    tally(entries.as_slice())
}

/// Sums up what packing does.
pub fn report(planned: &[Planned]) -> (r: PackReport)
    ensures
        reports(output::planned_models(planned@), r),
{
    let ghost all = output::planned_models(planned@);
    let m = role_tally(planned);
    let n: usize = m.len();
    let mut roles: Vec<RoleReport> = Vec::new();
    let mut i: usize = 0;
    while i < n
        invariant
            i <= n == m.items@.len(),
            all == output::planned_models(planned@),
            roles@.len() == i,
            forall|j: int|
                0 <= j < i ==> {
                    let role = #[trigger] roles@[j];
                    &&& role.role@ == m.keys()[j]
                    &&& role.total == m.items@[j].1
                    &&& role.types.wf()
                    &&& tally::tallied(role.types@, type_entries(all, role.role@))
                },
        decreases n - i,
    {
        let role = m.items[i].0.clone();
        let types = role_types(planned, role.as_str());
        roles.push(RoleReport { role, total: m.items[i].1, types });
        i = i + 1;
    }
    let columns = fallback_columns(planned);
    let c: usize = columns.len();
    let mut fallbacks: Vec<FallbackReport> = Vec::new();
    let mut j: usize = 0;
    while j < c
        invariant
            j <= c == columns@.len(),
            all == output::planned_models(planned@),
            fallbacks@.len() == j,
            forall|k: int|
                0 <= k < j ==> {
                    let f = #[trigger] fallbacks@[k];
                    &&& f.cols == columns@[k]
                    &&& f.types.wf()
                    &&& tally::tallied(f.types@, fallback_entries(all, f.cols))
                },
        decreases c - j,
    {
        let cols: usize = columns[j];
        fallbacks.push(FallbackReport { cols, types: fallback_types(planned, cols) });
        j = j + 1;
    }
    let (src_bytes, out_bytes, resident) = totals(planned);
    proof {
        assert forall|k: int|
            0 <= k < all.len() && fallback_cols(#[trigger] all[k]) is Some implies exists|i: int|
            0 <= i < fallbacks@.len() && Some((#[trigger] fallbacks@[i]).cols) == fallback_cols(
                all[k],
            ) by {
            let x = fallback_cols(all[k])->0;
            assert(columns@.contains(x));
            let i = choose|i: int| 0 <= i < columns@.len() && columns@[i] == x;
            assert(fallbacks@[i].cols == x);
        }
        assert forall|i: int| 0 <= i < fallbacks@.len() implies ({
            let f = #[trigger] fallbacks@[i];
            exists|k: int| 0 <= k < all.len() && fallback_cols(#[trigger] all[k]) == Some(f.cols)
        }) by {
            assert(columns@.contains(columns@[i]));
        }
        assert(m.wf());
    }
    let r = PackReport { roles, src_bytes, out_bytes, resident, fallbacks };
    assert(r.src_bytes == source_total(all));
    assert(r.roles@ == roles@ && r.fallbacks@ == fallbacks@);
    r
}

} // verus!
