//! What a measurement promises: who is measured with whom, what is asked for, and where scores go.
use vstd::prelude::*;
use crate::gguf::geometry::TensorError;
use crate::gguf::reader::{GgufReader, TensorInfo};
use crate::inspect::bytes_of;
use crate::ir::{ModelLayout, TensorTag};
use crate::sensitivity::candidates;
use crate::sensitivity::candidates::{
    candidate_id, candidate_step, count_candidates, list_candidates, plan_candidate, Candidate,
    CandidateError, CandidatePlan, CandidateStep, TooMany,
};
use crate::sensitivity::groups;
use crate::sensitivity::groups::{build_groups, Group, GroupError};
use crate::sensitivity::options;
use crate::sensitivity::options::{
    parse_grouping, parse_ladder, parse_roles, plan_of, SensitivityOpts, SensitivityPlan,
    UnknownGrouping,
};
use crate::sensitivity::table;
use crate::sensitivity::table::{
    score_entries, CandidateScore, GroupInfo, SensitivityEntry, SensitivityPoint,
    SensitivityTable, StaleTable,
};
use crate::sensitivity::{sanitize, Grouping};
use crate::text;

verus! {

/// Tensors are put together by their own name, by the label of their role, or by that label and the
/// part of the depth in which they lie, counted from zero, out of how many parts. What lies at the
/// very end belongs to the last part, and there is at least one part.
pub proof fn law_group_keys(
    grouping: &Grouping,
    tag: &TensorTag,
    scaled: usize,
    name: &str,
    label: &'static str,
    r: String,
)
    requires
        call_ensures(Grouping::key, (grouping, tag, scaled, name), r),
        call_ensures(crate::ir::Role::label, (&tag.role,), label),
    ensures
        *grouping == Grouping::PerTensor ==> r@ == name@,
        *grouping == Grouping::PerRole ==> r@ == label@,
        grouping matches Grouping::PerRoleDepth { buckets } ==> {
            let parts = if buckets == 0 {
                1
            } else {
                buckets as int
            };
            let part = if scaled < parts {
                scaled as int
            } else {
                parts - 1
            };
            r@ == label@ + "@d"@ + text::decimal(part as nat) + "/"@ + text::decimal(parts as nat)
        },
{
}

/// A name of a file is as long as the text and keeps its letters, digits, dots, underscores and
/// hyphens; every other character becomes an underscore.
pub proof fn law_names_of_files(s: &str, r: String, i: int)
    requires
        call_ensures(sanitize, (s,), r),
        0 <= i < s@.len(),
    ensures
        r@.len() == s@.len(),
        ({
            let c = s@[i];
            r@[i] == if 'a' <= c <= 'z' || 'A' <= c <= 'Z' || '0' <= c <= '9' || c == '.' || c == '-' {
                c
            } else {
                '_'
            }
        }),
{
}

/// A candidate is named by its group, made fit for a file, and its precision behind an at sign.
pub proof fn law_names_of_candidates(key: &str, bits: &str, file: String, r: String)
    requires
        call_ensures(sanitize, (key,), file),
        call_ensures(candidate_id, (key, bits), r),
    ensures
        r@ == file@ + "@"@ + bits@,
{
}

/// The groupings by their names, in any case and with spaces around them: by role where nothing is
/// said. A grouping by depth has at least one part, as many as its number says, and four without a
/// number. Any other name is refused as it was read.
pub proof fn law_groupings_by_name(s: Option<&str>, r: Result<Grouping, UnknownGrouping>, n: nat)
    requires
        call_ensures(parse_grouping, (s,), r),
        0 < n <= usize::MAX,
    ensures
        s is None ==> r == Ok::<Grouping, UnknownGrouping>(Grouping::PerRole),
        s matches Some(t) ==> {
            let u = text::lowercase(text::trimmed(t@));
            &&& u == "tensor"@ || u == "per-tensor"@ <==> r == Ok::<Grouping, UnknownGrouping>(
                Grouping::PerTensor,
            )
            &&& u == "role"@ || u == "per-role"@ <==> r == Ok::<Grouping, UnknownGrouping>(
                Grouping::PerRole,
            )
            &&& "role-depth"@.is_prefix_of(u) <==> (r matches Ok(
                Grouping::PerRoleDepth { buckets },
            ))
            &&& r matches Ok(Grouping::PerRoleDepth { buckets }) ==> buckets > 0
            &&& u == "role-depth:"@ + text::decimal(n) || u == "role-depth="@ + text::decimal(n)
                ==> r == Ok::<Grouping, UnknownGrouping>(
                (Grouping::PerRoleDepth { buckets: n as usize }),
            )
            &&& u == "role-depth"@ ==> r == Ok::<Grouping, UnknownGrouping>(
                (Grouping::PerRoleDepth { buckets: 4 }),
            )
            &&& r matches Err(e) ==> e.name@ == u
        },
{
    reveal_strlit("tensor");
    reveal_strlit("per-tensor");
    reveal_strlit("role");
    reveal_strlit("per-role");
    reveal_strlit("role-depth");
    reveal_strlit("role-depth:");
    reveal_strlit("role-depth=");
    assert("tensor"@.len() == 6 && "per-tensor"@.len() == 10 && "per-tensor"@[0] == 'p');
    assert("role"@.len() == 4 && "per-role"@.len() == 8);
    assert("role-depth"@.len() == 10 && "role-depth"@[0] == 'r');
    if let Some(t) = s {
        let u = text::lowercase(text::trimmed(t@));
        let d = text::decimal(n);
        text::lemma_decimal(n);
        assert(text::is_digit(d[0]) && text::is_digit(d[d.len() - 1]));
        if u == "role-depth:"@ + d || u == "role-depth="@ + d {
            assert(u.subrange(0, 10) =~= "role-depth"@);
            let rest = text::after(u, 10);
            assert(rest.drop_first() =~= d);
            assert(rest[0] == ':' || rest[0] == '=');
            assert(options::past_marks(rest) == options::past_marks(d));
            text::laws::lemma_trimmed_plain(d);
            text::law_decimal_parses(n, usize::MAX as nat);
        }
        if u == "role-depth"@ {
            assert(u.subrange(0, 10) =~= u);
            let rest = text::after(u, 10);
            assert(rest =~= Seq::empty());
            assert(options::past_marks(rest) == rest);
            text::laws::lemma_trimmed_plain(rest);
        }
        if "role-depth"@.is_prefix_of(u) {
            assert(u.subrange(0, 10)[0] == u[0]);
        }
    }
}

/// Six formats are measured where none are named, from two bits to eight; otherwise those between
/// the commas.
pub proof fn law_ladders(s: Option<&str>, r: Vec<String>)
    requires
        call_ensures(parse_ladder, (s,), r),
    ensures
        s is None ==> text::text_models(r@) == seq![
            "Q2_K"@,
            "Q3_K"@,
            "Q4_K"@,
            "Q5_K"@,
            "Q6_K"@,
            "Q8_0"@,
        ],
        s matches Some(t) ==> text::laws::joined(text::text_models(r@), ',') == t@,
{
    if let Some(t) = s {
        text::laws::lemma_pieces(t@, ',');
    }
}

/// The roles between commas, without the spaces around them, in their order and without those that
/// have nothing else.
pub proof fn law_roles_between_commas(s: &str, r: Vec<String>)
    requires
        call_ensures(parse_roles, (s,), r),
    ensures
        text::text_models(r@) == text::pieces(s@, ',').map_values(
            |p: Seq<char>| text::trimmed(p),
        ).filter(|p: Seq<char>| p.len() > 0),
{
    lemma_trimmed_all(text::pieces(s@, ','));
}

/// Trimming all texts and leaving out the empty ones.
proof fn lemma_trimmed_all(parts: Seq<Seq<char>>)
    ensures
        options::trimmed_all(parts) == parts.map_values(|p: Seq<char>| text::trimmed(p)).filter(
            |p: Seq<char>| p.len() > 0,
        ),
    decreases parts.len(),
{
    reveal(Seq::filter);
    let mapped = parts.map_values(|p: Seq<char>| text::trimmed(p));
    if parts.len() > 0 {
        lemma_trimmed_all(parts.drop_last());
        assert(mapped.drop_last() =~= parts.drop_last().map_values(
            |p: Seq<char>| text::trimmed(p),
        ));
    } else {
        assert(options::trimmed_all(parts) =~= mapped);
    }
}

/// A plan is what the options ask for: the model and the corpus, the grouping and the formats that
/// their texts name, at most 256 candidates where nothing is said, and candidates that stay on disk
/// where they shall or where others score them.
pub proof fn law_plans_follow_the_options(
    opts: &SensitivityOpts,
    work_dir: &str,
    r: Result<SensitivityPlan, UnknownGrouping>,
    grouping: Option<&str>,
    g: Result<Grouping, UnknownGrouping>,
    formats: Option<&str>,
    ladder: Vec<String>,
)
    requires
        call_ensures(plan_of, (opts, work_dir), r),
        crate::search::maybe_str(grouping) == crate::search::maybe(opts.grouping),
        call_ensures(parse_grouping, (grouping,), g),
        crate::search::maybe_str(formats) == crate::search::maybe(opts.ladder),
        call_ensures(parse_ladder, (formats,), ladder),
    ensures
        r is Ok <==> g is Ok,
        r matches Ok(p) ==> {
            &&& p.source@ == opts.input@ && p.corpus@ == opts.corpus@ && p.work_dir@ == work_dir@
            &&& g == Ok::<Grouping, UnknownGrouping>(p.grouping)
            &&& text::text_models(p.ladder@) == text::text_models(ladder@)
            &&& p.keep_candidates <==> opts.keep_candidates || opts.logits_dir is Some
            &&& opts.max_candidates is Some ==> p.max_candidates == opts.max_candidates
            &&& opts.max_candidates is None ==> p.max_candidates == Some(256usize)
            &&& opts.roles is None <==> p.roles is None
        },
{
}

/// A tensor is measured if and only if it may be quantized, holds floats, and has a role that is
/// asked for. It then stands in the group whose key is its own, and in no other.
pub proof fn law_who_is_measured(
    tensors: &[TensorInfo],
    layout: &ModelLayout,
    grouping: Grouping,
    scaled: &[usize],
    roles: &Option<Vec<String>>,
    r: Result<Vec<Group>, GroupError>,
    i: int,
    g: int,
    name: &str,
    tag: TensorTag,
    key: String,
)
    requires
        scaled@.len() == tensors@.len() <= usize::MAX,
        call_ensures(build_groups, (tensors, layout, grouping, scaled, roles), r),
        0 <= i < tensors@.len(),
        name@ == tensors@[i].name@,
        call_ensures(TensorTag::tag, (name, layout), tag),
        call_ensures(Grouping::key, (&grouping, &tag, scaled@[i], name), key),
    ensures
        ({
            let t = tensors@[i].ggml_type;
            let measured = tag.quantizable && (t == 0 || t == 1 || t == 30) && (roles matches Some(
                list,
            ) ==> text::text_models(list@).contains(tag.role.label_of()));
            &&& r == Err::<Vec<Group>, _>(GroupError::Empty) ==> !measured
            &&& r matches Ok(v) ==> 0 <= g < v@.len() ==> (v@[g].members@.contains(i as usize)
                <==> measured && v@[g].key@ == key@)
            &&& r matches Ok(v) ==> measured ==> exists|k: int|
                0 <= k < v@.len() && (#[trigger] v@[k]).members@.contains(i as usize)
        }),
{
    let list = groups::role_models(*roles);
    let keys = groups::groups_of(tensors@, layout.n_layers, grouping, scaled@, list);
    assert(keys[i] == groups::group_at(tensors@, layout.n_layers, grouping, scaled@, list, i));
    if let Ok(v) = r {
        groups::law_groups_partition(tensors@, layout.n_layers, keys, v@, i);
        if 0 <= g < v@.len() {
            let m = v@[g].members@;
            assert(m == groups::members_of(keys, v@[g].key@, keys.len() as int));
            groups::lemma_members(keys, v@[g].key@, keys.len() as int);
            if m.contains(i as usize) {
                let x = choose|x: int| 0 <= x < m.len() && m[x] == i as usize;
                assert(keys[m[x] as int] == Some(v@[g].key@));
            }
        }
    }
}

/// The members of a group stand in the order of the file and none twice; the group has the role of
/// its first member, and the bytes of a group are those of its members.
pub proof fn law_groups_sum_up_their_members(
    tensors: &[TensorInfo],
    layout: &ModelLayout,
    grouping: Grouping,
    scaled: &[usize],
    roles: &Option<Vec<String>>,
    v: Vec<Group>,
    g: int,
    a: int,
    b: int,
    name: &str,
    tag: TensorTag,
)
    requires
        scaled@.len() == tensors@.len() <= usize::MAX,
        call_ensures(
            build_groups,
            (tensors, layout, grouping, scaled, roles),
            Ok::<Vec<Group>, GroupError>(v),
        ),
        0 <= g < v@.len(),
        0 <= a < b < v@[g].members@.len(),
        name@ == tensors@[v@[g].members@[0] as int].name@,
        call_ensures(TensorTag::tag, (name, layout), tag),
    ensures
        v@[g].members@[a] < v@[g].members@[b] < tensors@.len(),
        v@[g].role@ == tag.role.label_of(),
        v@[g].source_bytes == groups::members_bytes(tensors@, v@[g].members@),
{
    let list = groups::role_models(*roles);
    let keys = groups::groups_of(tensors@, layout.n_layers, grouping, scaled@, list);
    let m = v@[g].members@;
    assert(m == groups::members_of(keys, v@[g].key@, keys.len() as int));
    groups::lemma_members(keys, v@[g].key@, keys.len() as int);
}

/// Bytes of members add up one by one.
pub proof fn law_member_bytes_add_up(
    tensors: Seq<TensorInfo>,
    members: Seq<usize>,
    i: usize,
    t: &TensorInfo,
    bytes: u64,
)
    requires
        i < tensors.len(),
        *t == tensors[i as int],
        call_ensures(bytes_of, (t,), bytes),
    ensures
        groups::members_bytes(tensors, Seq::empty()) == 0,
        groups::members_bytes(tensors, members.push(i)) == groups::members_bytes(tensors, members)
            + bytes,
{
    assert(members.push(i).drop_last() =~= members);
}

/// A member of a group gets its type in a candidate, every other tensor keeps its own, and the
/// headers of the candidate say so; all keep their names and dimensions.
pub proof fn law_members_get_their_types(
    tensors: &[TensorInfo],
    members: &[usize],
    want: u32,
    types: &[u32],
    r: Result<CandidatePlan, CandidateError>,
    j: int,
    i: int,
)
    requires
        members@.len() == types@.len(),
        forall|k: int| 0 <= k < members@.len() ==> #[trigger] members@[k] < tensors@.len(),
        forall|a: int, b: int|
            0 <= a < b < members@.len() ==> #[trigger] members@[a] != #[trigger] members@[b],
        call_ensures(plan_candidate, (tensors, members, want, types), r),
        r is Ok,
        0 <= i < tensors@.len(),
    ensures
        ({
            let c = r->Ok_0;
            &&& c.targets@.len() == c.plans@.len() == tensors@.len()
            &&& 0 <= j < members@.len() ==> c.targets@[members@[j] as int] == types@[j]
            &&& !members@.contains(i as usize) ==> c.targets@[i] == tensors@[i].ggml_type
            &&& c.plans@[i].ggml_type == c.targets@[i]
            &&& c.plans@[i].name@ == tensors@[i].name@
            &&& c.plans@[i].dims@ == tensors@[i].dims@
            &&& members@.len() > 0 ==> c.ggml_type == types@[members@.len() - 1]
            &&& forall|k: int| 0 <= k < types@.len() ==> #[trigger] types@[k] < 0x8000
        }),
{
    let c = r->Ok_0;
    let n = members@.len() as int;
    assert(c.targets@[i] == candidates::target_of(tensors@, members@, types@, n, i));
    if 0 <= j < n {
        let at = members@[j] as int;
        assert(c.targets@[at] == candidates::target_of(tensors@, members@, types@, n, at));
        lemma_target(tensors@, members@, types@, n, j);
    }
    if !members@.contains(i as usize) {
        assert forall|k: int| 0 <= k < members@.len() implies #[trigger] members@[k] != i by {
            if members@[k] == i {
                assert(members@[k] == i as usize);
            }
        }
        candidates::law_other_tensors_keep_their_type(tensors@, members@, types@, n, i);
    }
}

/// A member that comes once has its type.
proof fn lemma_target(
    tensors: Seq<TensorInfo>,
    members: Seq<usize>,
    types: Seq<u32>,
    n: int,
    j: int,
)
    requires
        0 <= j < n <= members.len(),
        forall|a: int, b: int|
            0 <= a < b < members.len() ==> #[trigger] members[a] != #[trigger] members[b],
    ensures
        candidates::target_of(tensors, members, types, n, members[j] as int) == types[j],
    decreases n,
{
    if j < n - 1 {
        assert(members[j] != members[n - 1]);
        lemma_target(tensors, members, types, n - 1, j);
    }
}

/// The entry of a tensor is the one under its own name; where there is none, one that has it among
/// its tensors; and where there is none either, the one under its role. Nothing is found only where
/// none of these is there.
pub proof fn law_lookups(
    t: &SensitivityTable,
    name: &str,
    role: &str,
    r: Option<&SensitivityEntry>,
    i: int,
)
    requires
        call_ensures(SensitivityTable::lookup, (t, name, role), r),
        0 <= i < t.entries@.len(),
    ensures
        t.entries@[i].key@ == name@ ==> (r matches Some(e) && e.key@ == name@),
        text::text_models(t.entries@[i].members@).contains(name@) ==> (r matches Some(e) && (e.key@
            == name@ || text::text_models(e.members@).contains(name@))),
        t.entries@[i].key@ == role@ ==> r is Some,
        r matches Some(e) ==> e.key@ == name@ || text::text_models(e.members@).contains(name@)
            || e.key@ == role@,
        r matches Some(e) ==> t.entries@.contains(*e),
{
    let es = t.entries@;
    if let Some(e) = r {
        let k = choose|k: int|
            0 <= k < es.len() && *e == es[k] && #[trigger] table::looked_up(
                es,
                name@,
                role@,
                Some(k),
            );
        assert(es[k] == *e);
    }
    assert(table::has_member(es[i], name@) == text::text_models(es[i].members@).contains(name@));
}

/// Only tables of the first form are read, and they are not changed.
pub proof fn law_tables_of_the_first_form(
    t: SensitivityTable,
    r: Result<SensitivityTable, StaleTable>,
)
    requires
        call_ensures(SensitivityTable::accept, (t,), r),
    ensures
        t.schema == 1 <==> r is Ok,
        r matches Ok(x) ==> x == t,
        r matches Err(e) ==> e.schema == t.schema,
{
}

/// The place of a candidate of a group.
proof fn lemma_candidates_of(cs: Seq<Candidate>, key: Seq<char>, n: int)
    requires
        0 <= n <= cs.len(),
    ensures
        ({
            let p = table::candidates_of(cs, key, n);
            &&& forall|j: int| 0 <= j < p.len() ==> 0 <= #[trigger] p[j] < n && cs[p[j]].group@ == key
            &&& forall|c: int| 0 <= c < n && (#[trigger] cs[c]).group@ == key ==> p.contains(c)
            &&& forall|i: int, j: int| 0 <= i < j < p.len() ==> #[trigger] p[i] < #[trigger] p[j]
        }),
    decreases n,
{
    if n > 0 {
        lemma_candidates_of(cs, key, n - 1);
        let before = table::candidates_of(cs, key, n - 1);
        let p = table::candidates_of(cs, key, n);
        assert forall|c: int| 0 <= c < n && (#[trigger] cs[c]).group@ == key implies p.contains(
            c,
        ) by {
            if c < n - 1 {
                let j = choose|j: int| 0 <= j < before.len() && before[j] == c;
                assert(p[j] == c);
            } else {
                assert(p[p.len() - 1] == c);
            }
        }
    }
}

/// A point says of a candidate what was asked and what was measured.
pub open spec fn tells_of(p: SensitivityPoint, c: Candidate, s: CandidateScore) -> bool {
    &&& p.bits@ == c.bits@
    &&& p.ggml_type == c.ggml_type
    &&& p.bytes == c.group_bytes
    &&& p.kl == s.kl
    &&& p.kl_p99 == Some(s.kl_p99)
    &&& p.top1_agreement == Some(s.top1_agreement)
    &&& p.ppl == s.ppl
}

/// Every score goes to the entry of its candidate's group, and an entry has no other points. The
/// entries are the groups, in their order, each with what is known of it.
pub proof fn law_scores_go_to_their_groups(
    infos: &[GroupInfo],
    cs: &[Candidate],
    scores: &[CandidateScore],
    r: Vec<SensitivityEntry>,
    g: int,
    c: int,
    p: int,
)
    requires
        cs@.len() == scores@.len() <= usize::MAX,
        call_ensures(score_entries, (infos, cs, scores), r),
        0 <= g < infos@.len(),
        forall|h: int| 0 <= h < g ==> (#[trigger] infos@[h]).key@ != infos@[g].key@,
    ensures
        r@.len() == infos@.len(),
        r@[g].key@ == infos@[g].key@,
        r@[g].role@ == infos@[g].role@,
        r@[g].depth == infos@[g].depth,
        r@[g].source_bytes == infos@[g].source_bytes,
        text::text_models(r@[g].members@) == text::text_models(infos@[g].members@),
        0 <= c < cs@.len() && cs@[c].group@ == infos@[g].key@ ==> exists|k: int|
            0 <= k < r@[g].points@.len() && tells_of(#[trigger] r@[g].points@[k], cs@[c], scores@[c]),
        0 <= p < r@[g].points@.len() ==> exists|k: int|
            0 <= k < cs@.len() && (#[trigger] cs@[k]).group@ == infos@[g].key@ && tells_of(
                r@[g].points@[p],
                cs@[k],
                scores@[k],
            ),
{
    let key = infos@[g].key@;
    let e = r@[g];
    assert(!table::came_before(infos@, g));
    assert(table::are_points(cs@, scores@, key, e.points@));
    let places = table::candidates_of(cs@, key, cs@.len() as int);
    lemma_candidates_of(cs@, key, cs@.len() as int);
    let v = e.points@;
    let sizes = table::sizes_at(cs@, places);
    let o = choose|o: Seq<usize>|
        {
            &&& #[trigger] crate::order::is_stable_order(sizes, o)
            &&& v.len() == places.len()
            &&& forall|i: int|
                0 <= i < v.len() ==> (#[trigger] v[i])@ == table::point_of(
                    cs@[places[o[i] as int]],
                    scores@[places[o[i] as int]],
                )
        };
    if 0 <= c < cs@.len() && cs@[c].group@ == key {
        assert(places.contains(c));
        let j = choose|j: int| 0 <= j < places.len() && places[j] == c;
        lemma_few(places, cs@.len() as int);
        crate::order::lemma_order_covers(sizes, o, j);
        let k = choose|k: int| 0 <= k < o.len() && o[k] == j as usize;
        assert(v[k]@ == table::point_of(cs@[places[o[k] as int]], scores@[places[o[k] as int]]));
        assert(tells_of(v[k], cs@[c], scores@[c]));
    }
    if 0 <= p < v.len() {
        assert(o[p] < sizes.len());
        let k = places[o[p] as int];
        assert(v[p]@ == table::point_of(cs@[k], scores@[k]));
        assert(cs@[k].group@ == key);
    }
}

/// Growing places are no more than there are places.
proof fn lemma_few(places: Seq<int>, n: int)
    requires
        0 <= n,
        forall|j: int| 0 <= j < places.len() ==> 0 <= #[trigger] places[j] < n,
        forall|i: int, j: int|
            0 <= i < j < places.len() ==> #[trigger] places[i] < #[trigger] places[j],
    ensures
        places.len() <= n,
    decreases places.len(),
{
    if places.len() > 0 {
        let before = places.drop_last();
        assert forall|j: int| 0 <= j < before.len() implies 0 <= #[trigger] before[j]
            < places.last() by {
            assert(places[j] < places[places.len() - 1]);
        }
        assert forall|i: int, j: int| 0 <= i < j < before.len() implies #[trigger] before[i]
            < #[trigger] before[j] by {
            assert(places[i] < places[j]);
        }
        assert(places[places.len() - 1] < n);
        lemma_few(before, places.last());
    }
}

/// Every group is tried at every precision: the candidates come group by group, and in a group
/// precision by precision. More than there may be are refused.
pub proof fn law_candidates_in_order(
    groups: usize,
    rungs: usize,
    cap: Option<usize>,
    n: Result<usize, TooMany>,
    r: Result<Vec<(usize, usize)>, TooMany>,
    g: int,
    b: int,
)
    requires
        cap is None ==> groups * rungs <= usize::MAX,
        call_ensures(count_candidates, (groups, rungs, cap), n),
        call_ensures(list_candidates, (groups, rungs, cap), r),
        0 <= g < groups,
        0 <= b < rungs,
    ensures
        n is Ok <==> (cap matches Some(c) ==> groups * rungs <= c),
        r is Ok <==> n is Ok,
        n matches Ok(k) ==> k == groups * rungs,
        r matches Ok(v) ==> v@.len() == groups * rungs && v@[g * rungs + b] == (
            g as usize,
            b as usize,
        ),
{
    if let Ok(v) = r {
        assert(candidates::place_of(g, b, rungs as int) == g * rungs + b);
    }
}

/// A tensor of a candidate keeps its bytes where it keeps its type, and is quantized to its new type
/// otherwise.
pub proof fn law_steps_of_a_candidate<'a>(
    file: &GgufReader<'a>,
    targets: &[u32],
    i: usize,
    b: Result<&'a [u8], TensorError>,
    rows: usize,
    cols: usize,
    r: Result<CandidateStep<'a>, TensorError>,
)
    requires
        i < file.tensors@.len(),
        targets@.len() == file.tensors@.len(),
        call_ensures(candidate_step, (file, targets, i), r),
        call_ensures(GgufReader::<'a>::tensor_bytes, (file, i), b),
        call_ensures(TensorInfo::rows_cols, (&file.tensors@[i as int],), (rows, cols)),
    ensures
        targets@[i as int] == file.tensors@[i as int].ggml_type ==> (r is Ok <==> b is Ok),
        targets@[i as int] == file.tensors@[i as int].ggml_type && r is Ok ==> (r
            matches Ok(CandidateStep::Copy(x)) && x@ == b->Ok_0@),
        targets@[i as int] != file.tensors@[i as int].ggml_type ==> (r matches Ok(
            CandidateStep::Quantize { ggml_type, rows: y, cols: z },
        ) && ggml_type == targets@[i as int] && y == rows && z == cols),
{
}

/// A plan that says nothing else measures each role with the usual formats, at most 256 candidates,
/// and keeps none.
pub proof fn law_usual_plans(source: &str, corpus: &str, work_dir: &str, r: SensitivityPlan)
    requires
        call_ensures(SensitivityPlan::new, (source, corpus, work_dir), r),
    ensures
        r.source@ == source@ && r.corpus@ == corpus@ && r.work_dir@ == work_dir@,
        text::text_models(r.ladder@) == seq![
            "Q2_K"@,
            "Q3_K"@,
            "Q4_K"@,
            "Q5_K"@,
            "Q6_K"@,
            "Q8_0"@,
        ],
        r.grouping == Grouping::PerRole,
        r.roles is None && r.max_candidates == Some(256usize) && !r.keep_candidates,
{
}

} // verus!
