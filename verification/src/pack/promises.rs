//! What a pack promises of its files, its manifest and its report.
use vstd::prelude::*;
use crate::bytes;
use crate::gguf::geometry::{block_layout, count_elems};
use crate::json;
use crate::json::{Json, JsonModel};
use crate::names::NameMap;
use crate::pack;
use crate::pack::output;
use crate::pack::output::{is_support_file, manifest, next_rows, pack_items, pack_total};
use crate::pack::report;
use crate::pack::report::{report, PackReport};
use crate::pack::{
    flatten, plan_pack, plan_tensor, quant_name, request, requests, row_bytes, source_row,
    CheckpointError, PackError, PackOptions, PackPlan, PackRole, Planned, UnknownType,
};
use crate::safetensors;
use crate::safetensors::sharded::ShardedSafeTensors;
use crate::safetensors::shards;
use crate::safetensors::shards::ShardItem;
use crate::safetensors::{StDtype, StEntry};
use crate::tally;

verus! {

/// The bytes of a tensor before packing are those of its elements, and a tensor that is left as it
/// is keeps them.
pub proof fn law_source_bytes_are_those_of_the_elements(
    name: &str,
    e: &StEntry,
    opts: &PackOptions,
    fallback: (u32, bool),
    shape: &[u64],
    n: u64,
    p: Planned,
)
    requires
        call_ensures(plan_tensor, (name, e, opts, fallback), Ok::<Planned, PackError>(p)),
        shape@ == e.shape@,
        call_ensures(count_elems, (shape,), Some(n)),
    ensures
        e.dtype == StDtype::F32 || e.dtype == StDtype::I32 || e.dtype == StDtype::U32
            ==> p.src_bytes == 4 * n,
        e.dtype == StDtype::F64 || e.dtype == StDtype::I64 || e.dtype == StDtype::U64
            ==> p.src_bytes == 8 * n,
        e.dtype == StDtype::F16 || e.dtype == StDtype::BF16 || e.dtype == StDtype::I16 || e.dtype
            == StDtype::U16 ==> p.src_bytes == 2 * n,
        e.dtype == StDtype::U8 || e.dtype == StDtype::I8 || e.dtype == StDtype::Bool || e.dtype
            == StDtype::F8E4M3 || e.dtype == StDtype::F8E5M2 ==> p.src_bytes == n,
        p.plan == PackPlan::Passthrough ==> p.out_bytes == p.src_bytes,
{
}

/// Types that a pack may have are named by their numbers.
pub proof fn law_types_are_named(t: u32, r: &'static str)
    requires
        call_ensures(quant_name, (t,), r),
    ensures
        t == 1 ==> r@ == "F16"@,
        t == 6 ==> r@ == "Q5_0"@,
        t == 8 ==> r@ == "Q8_0"@,
        t == 12 ==> r@ == "Q4_K"@,
        t == 14 ==> r@ == "Q6_K"@,
        t != 1 && t != 6 && t != 8 && t != 12 && t != 14 ==> r@ == "?"@,
{
}

/// Roles are named in reports.
pub proof fn law_roles_are_named(role: PackRole, r: &'static str)
    requires
        call_ensures(PackRole::label, (role,), r),
    ensures
        role == PackRole::Vector ==> r@ == "scalar/vector"@,
        role == PackRole::Vision ==> r@ == "vision (unused)"@,
        role == PackRole::Router ==> r@ == "router (protected)"@,
        role == PackRole::SharedExpert ==> r@ == "shared expert (degenerate)"@,
        role == PackRole::Conv ==> r@ == "conv1d"@,
        role == PackRole::Experts ==> r@ == "routed experts"@,
        role == PackRole::Embeddings ==> r@ == "embeddings / LM head"@,
        role == PackRole::Attention ==> r@ == "attention"@,
{
}

/// The files hold every planned tensor, in order and under its name: one that is left as it is with
/// its type and its shape, a quantized one as a row of bytes.
pub proof fn law_files_hold_the_planned(planned: &[Planned], r: Vec<ShardItem>, i: int)
    requires
        call_ensures(pack_items, (planned,), r),
        0 <= i < planned@.len(),
    ensures
        r@.len() == planned@.len(),
        r@[i].name@ == planned@[i].name@,
        r@[i].nbytes == planned@[i].out_bytes,
        planned@[i].plan == PackPlan::Passthrough ==> r@[i].dtype == planned@[i].src_dtype
            && r@[i].shape@ == planned@[i].shape@,
        planned@[i].plan != PackPlan::Passthrough ==> r@[i].dtype == StDtype::U8 && r@[i].shape@
            == seq![planned@[i].out_bytes],
{
    let m = shards::item_models(r@);
    let all = output::planned_models(planned@);
    assert(m == output::packed_items(all));
    assert(m.len() == r@.len());
    assert(m[i] == r@[i]@);
    assert(m[i] == output::packed_item(all[i]));
}

/// The bytes of a pack are added up tensor by tensor.
pub proof fn law_packed_bytes_add_up(
    a: &[Planned],
    b: &[Planned],
    p: Planned,
    x: Option<u64>,
    y: Option<u64>,
)
    requires
        b@ == a@.push(p),
        call_ensures(pack_total, (a,), x),
        call_ensures(pack_total, (b,), y),
    ensures
        a@.len() == 0 ==> x == Some(0u64),
        x is None ==> y is None,
        x matches Some(n) ==> (y is Some <==> n + p.out_bytes <= u64::MAX),
        y matches Some(n) ==> n == x->0 + p.out_bytes,
{
    let s = output::packed_items(output::planned_models(a@));
    let t = output::packed_items(output::planned_models(b@));
    lemma_offset(s, t, a@.len() as int);
    assert(t[a@.len() as int] == output::packed_item(p@));
}

/// Where a tensor begins depends on those before it alone.
proof fn lemma_offset(a: Seq<shards::ItemModel>, b: Seq<shards::ItemModel>, n: int)
    requires
        0 <= n <= a.len() <= b.len(),
        forall|i: int| 0 <= i < a.len() ==> #[trigger] b[i] == a[i],
    ensures
        shards::offset_of(a, n) == shards::offset_of(b, n),
    decreases n,
{
    if n > 0 {
        lemma_offset(a, b, n - 1);
        assert(b[n - 1] == a[n - 1]);
    }
}

/// The keys of a manifest differ from each other.
proof fn lemma_manifest_keys()
    ensures
        "format_version"@.len() == 14,
        "producer"@.len() == 8,
        "source"@.len() == 6 && "source"@[0] == 's',
        "recipe"@.len() == 6 && "recipe"@[0] == 'r',
        "tensors"@.len() == 7,
        "experts"@.len() == 7,
        "attention"@.len() == 9,
        "embeddings"@.len() == 10,
        "format"@.len() == 6 && "format"@[0] == 'f',
        "ggml_type"@.len() == 9,
        "shape"@.len() == 5,
        "rows"@.len() == 4 && "rows"@[0] == 'r',
        "cols"@.len() == 4 && "cols"@[0] == 'c',
        "row_bytes"@.len() == 9 && "row_bytes"@[0] == 'r' && "ggml_type"@[0] == 'g',
        "nbytes"@.len() == 6 && "nbytes"@[0] == 'n',
{
    reveal_strlit("format_version");
    reveal_strlit("producer");
    reveal_strlit("source");
    reveal_strlit("recipe");
    reveal_strlit("tensors");
    reveal_strlit("experts");
    reveal_strlit("attention");
    reveal_strlit("embeddings");
    reveal_strlit("format");
    reveal_strlit("ggml_type");
    reveal_strlit("shape");
    reveal_strlit("rows");
    reveal_strlit("cols");
    reveal_strlit("row_bytes");
    reveal_strlit("nbytes");
}

/// The manifest says who wrote it, from where, and which types the recipe gives to experts, to
/// attention and to embeddings.
pub proof fn law_manifest_states_the_recipe(
    planned: &[Planned],
    opts: &PackOptions,
    producer: &str,
    r: Json,
    experts: &'static str,
    attention: &'static str,
    embeddings: &'static str,
)
    requires
        call_ensures(manifest, (planned, opts, producer), r),
        call_ensures(quant_name, (opts.expert_type,), experts),
        call_ensures(quant_name, (opts.attn_type,), attention),
        call_ensures(quant_name, (opts.embed_type,), embeddings),
    ensures
        r@.get("format_version"@) == Some(JsonModel::UInt(1)),
        r@.get("producer"@) == Some(JsonModel::Text(producer@)),
        r@.get("source"@) == Some(JsonModel::Text(opts.input_dir@)),
        r@.get("recipe"@) is Some,
        r@.get("recipe"@)->0.get("experts"@) == Some(JsonModel::Text(experts@)),
        r@.get("recipe"@)->0.get("attention"@) == Some(JsonModel::Text(attention@)),
        r@.get("recipe"@)->0.get("embeddings"@) == Some(JsonModel::Text(embeddings@)),
        r@.get("tensors"@) is Some,
{
    lemma_manifest_keys();
    json::lemma_said(r@, "format_version"@);
    json::lemma_said(r@, "producer"@);
    json::lemma_said(r@, "source"@);
    json::lemma_said(r@, "recipe"@);
    json::lemma_said(r@, "tensors"@);
    let recipe = json::object(output::recipe_members(*opts));
    json::lemma_said(recipe, "experts"@);
    json::lemma_said(recipe, "attention"@);
    json::lemma_said(recipe, "embeddings"@);
}

/// The manifest lists the quantized tensors and no others, each with its type, its shape, its rows
/// and their lengths in elements and in bytes.
pub proof fn law_manifest_tells_how_to_read_a_tensor(
    planned: &[Planned],
    opts: &PackOptions,
    producer: &str,
    r: Json,
    i: int,
)
    requires
        call_ensures(manifest, (planned, opts, producer), r),
        0 <= i < planned@.len(),
        forall|a: int, b: int|
            0 <= a < b < planned@.len() ==> (#[trigger] planned@[a]).name@ != (
            #[trigger] planned@[b]).name@,
    ensures
        ({
            let p = planned@[i];
            let said = r@.get("tensors"@)->0.get(p.name@);
            match p.plan {
                PackPlan::Passthrough => said is None,
                PackPlan::Quantize { ggml_type, rows, cols, row_bytes, .. } => {
                    let t = said->0;
                    &&& said is Some
                    &&& t.get("ggml_type"@) == Some(JsonModel::UInt(ggml_type as u64))
                    &&& ggml_type == 8 ==> t.get("format"@) == Some(JsonModel::Text("Q8_0"@))
                    &&& ggml_type == 12 ==> t.get("format"@) == Some(JsonModel::Text("Q4_K"@))
                    &&& t.get("shape"@) == Some(
                        JsonModel::List(p.shape@.map_values(|n: u64| JsonModel::UInt(n))),
                    )
                    &&& t.get("rows"@) == Some(JsonModel::UInt(rows as u64))
                    &&& t.get("cols"@) == Some(JsonModel::UInt(cols as u64))
                    &&& t.get("row_bytes"@) == Some(JsonModel::UInt(row_bytes as u64))
                    &&& t.get("nbytes"@) == Some(JsonModel::UInt(p.out_bytes))
                },
            }
        }),
{
    let all = output::planned_models(planned@);
    let n = planned@.len() as int;
    lemma_manifest_keys();
    json::lemma_said(r@, "tensors"@);
    let list = json::object(output::manifest_tensors(all, n));
    assert forall|a: int, b: int| 0 <= a < b < all.len() implies (#[trigger] all[a]).name != (
    #[trigger] all[b]).name by {
        assert(planned@[a].name@ != planned@[b].name@);
    }
    output::law_manifest_lists_the_quantized(all, n, i);
    assert(all[i] == planned@[i]@);
    json::lemma_said(list, planned@[i].name@);
    if planned@[i].plan is Quantize {
        let t = json::object(output::entry_members(all[i]));
        assert(json::members(t) == output::entry_members(all[i]));
        json::lemma_said(t, "ggml_type"@);
        json::lemma_said(t, "format"@);
        json::lemma_said(t, "shape"@);
        json::lemma_said(t, "rows"@);
        json::lemma_said(t, "cols"@);
        json::lemma_said(t, "row_bytes"@);
        json::lemma_said(t, "nbytes"@);
    }
}

/// Every file of a checkpoint is taken over but the tensors and their index.
pub proof fn law_support_files(name: &str, r: bool)
    requires
        call_ensures(is_support_file, (name,), r),
    ensures
        !r <==> name@ == "model.safetensors.index.json"@ || ".safetensors"@.is_suffix_of(name@),
{
}

/// Rows are quantized in groups of 4096, and the last group is what is left.
pub proof fn law_rows_come_in_groups(done: usize, rows: usize, r: usize)
    requires
        done <= rows,
        call_ensures(next_rows, (done, rows), r),
    ensures
        done + r <= rows,
        r == 4096 || done + r == rows,
        r <= 4096,
{
}

/// A row of a tensor is that many of its elements, from where the rows before it end.
pub proof fn law_rows_are_read_in_order(
    dtype: StDtype,
    src: &[u8],
    r: usize,
    cols: usize,
    v: Vec<u32>,
    i: int,
)
    requires
        call_ensures(source_row, (dtype, src, r, cols), v),
        dtype == StDtype::F32,
        (r + 1) * (cols * 4) <= src@.len(),
        0 <= i < cols,
    ensures
        v@.len() == cols,
        ({
            let at = 4 * (r * cols + i);
            v@[i] == bytes::le_value(src@.subrange(at, at + 4))
        }),
{
    assert(safetensors::float_elem(dtype, src@, r * cols + i, v@[i]));
}

/// The place of a role in a report.
pub open spec fn place(r: PackReport, role: Seq<char>) -> int {
    choose|i: int| 0 <= i < r.roles@.len() && (#[trigger] r.roles@[i]).role@ == role
}

/// What a report says of a role: how many tensors it has, and their bytes before and after packing.
pub open spec fn counted(r: PackReport, role: Seq<char>) -> (nat, nat, nat) {
    if exists|i: int| 0 <= i < r.roles@.len() && (#[trigger] r.roles@[i]).role@ == role {
        let i = place(r, role);
        (
            r.roles@[i].total.count as nat,
            r.roles@[i].total.first as nat,
            r.roles@[i].total.second as nat,
        )
    } else {
        (0, 0, 0)
    }
}

/// What a report says of a role is what the tensors sum up to.
proof fn lemma_counted(planned: Seq<pack::PlannedModel>, r: PackReport, role: Seq<char>)
    requires
        report::reports(planned, r),
    ensures
        counted(r, role) == (
            tally::count_of(report::role_entries(planned), role),
            tally::first_of(report::role_entries(planned), role),
            tally::second_of(report::role_entries(planned), role),
        ),
{
    let e = report::role_entries(planned);
    let m = choose|m: NameMap<tally::Tally>|
        {
            &&& #[trigger] m.wf()
            &&& tally::tallied(m@, e)
            &&& r.roles@.len() == m.items@.len()
            &&& forall|i: int|
                0 <= i < r.roles@.len() ==> {
                    let role = #[trigger] r.roles@[i];
                    &&& role.role@ == m.keys()[i]
                    &&& role.total == m.items@[i].1
                    &&& role.types.wf()
                    &&& tally::tallied(role.types@, report::type_entries(planned, role.role@))
                }
        };
    tally::lemma_none_at(e, role);
    if exists|i: int| 0 <= i < r.roles@.len() && (#[trigger] r.roles@[i]).role@ == role {
        let i = place(r, role);
        m.lemma_at(i);
        assert(m.keys()[i] == m.items@[i].0@);
        assert(m@.dom().contains(role) && m@[role] == r.roles@[i].total);
        assert(counted(r, role) == (
            m@[role].count as nat,
            m@[role].first as nat,
            m@[role].second as nat,
        ));
    } else if m@.dom().contains(role) {
        let i = m.lemma_found(role);
        assert(m.keys()[i] == m.items@[i].0@);
        assert(r.roles@[i].role@ == role);
    } else {
        assert(tally::count_of(e, role) == 0);
        assert(counted(r, role) == (0nat, 0nat, 0nat));
    }
}

/// One more tensor adds its bytes to the sums of a report, and to those of its role and of no other.
/// Everything but the vision tower stays in memory.
pub proof fn law_reports_add_up(
    a: &[Planned],
    b: &[Planned],
    p: Planned,
    x: PackReport,
    y: PackReport,
    label: &'static str,
    role: Seq<char>,
)
    requires
        b@ == a@.push(p),
        call_ensures(report, (a,), x),
        call_ensures(report, (b,), y),
        call_ensures(PackRole::label, (p.role,), label),
    ensures
        a@.len() == 0 ==> x.src_bytes == 0 && x.out_bytes == 0 && x.resident == 0 && x.roles@.len()
            == 0,
        y.src_bytes == x.src_bytes + p.src_bytes,
        y.out_bytes == x.out_bytes + p.out_bytes,
        p.role == PackRole::Vision ==> y.resident == x.resident,
        p.role != PackRole::Vision ==> y.resident == x.resident + p.out_bytes,
        role != label@ ==> counted(y, role) == counted(x, role),
        ({
            let (n, first, second) = counted(x, label@);
            counted(y, label@) == (n + 1, first + p.src_bytes as nat, second + p.out_bytes as nat)
        }),
{
    let s = output::planned_models(a@);
    let t = output::planned_models(b@);
    assert(t.drop_last() =~= s);
    assert(t.last() == p@);
    assert(report::role_entries(t).drop_last() =~= report::role_entries(s));
    lemma_counted(s, x, role);
    lemma_counted(t, y, role);
    lemma_counted(s, x, label@);
    lemma_counted(t, y, label@);
    if a@.len() == 0 {
        if x.roles@.len() > 0 {
            let first = x.roles@[0].role@;
            lemma_listed_are_counted(s, x, 0);
            assert(tally::count_of(report::role_entries(s), first) == 0);
        }
    }
}

/// A role that is listed has tensors.
proof fn lemma_listed_are_counted(planned: Seq<pack::PlannedModel>, r: PackReport, i: int)
    requires
        report::reports(planned, r),
        0 <= i < r.roles@.len(),
    ensures
        tally::count_of(report::role_entries(planned), r.roles@[i].role@) > 0,
{
    let e = report::role_entries(planned);
    let m = choose|m: NameMap<tally::Tally>|
        {
            &&& #[trigger] m.wf()
            &&& tally::tallied(m@, e)
            &&& r.roles@.len() == m.items@.len()
            &&& forall|i: int|
                0 <= i < r.roles@.len() ==> {
                    let role = #[trigger] r.roles@[i];
                    &&& role.role@ == m.keys()[i]
                    &&& role.total == m.items@[i].1
                    &&& role.types.wf()
                    &&& tally::tallied(role.types@, report::type_entries(planned, role.role@))
                }
        };
    m.lemma_at(i);
    assert(r.roles@[i].role@ == m.keys()[i]);
}

/// Every tensor of a checkpoint is planned in the order of the names, as it would be alone, with the
/// type that stands in for it.
pub proof fn law_every_tensor_is_planned(
    src: &ShardedSafeTensors<'_>,
    opts: &PackOptions,
    fallbacks: &[(u32, bool)],
    v: Vec<Planned>,
    i: int,
    name: &str,
    e: &StEntry,
    alone: Result<Planned, PackError>,
)
    requires
        src.wf(),
        fallbacks@.len() == src.map.keys().len(),
        call_ensures(
            plan_pack,
            (src, opts, fallbacks),
            Ok::<Vec<Planned>, CheckpointError>(v),
        ),
        0 <= i < v@.len(),
        name@ == src.map.keys()[i],
        call_ensures(ShardedSafeTensors::entry, (src, name), Some(e)),
        call_ensures(plan_tensor, (name, e, opts, fallbacks@[i]), alone),
    ensures
        v@.len() == src.map.keys().len(),
        alone matches Ok(p) && p@ == v@[i]@,
{
    assert(pack::planned_at(src, *opts, fallbacks@, i) == Ok::<pack::PlannedModel, PackError>(
        v@[i]@,
    ));
}

/// Every tensor asks for what it would ask for alone.
pub proof fn law_requests_in_order(
    src: &ShardedSafeTensors<'_>,
    opts: &PackOptions,
    r: Vec<Option<(u32, u64)>>,
    i: int,
    name: &str,
    e: &StEntry,
    shape: &[u64],
    alone: Option<(u32, u64)>,
)
    requires
        src.wf(),
        call_ensures(requests, (src, opts), r),
        0 <= i < r@.len(),
        name@ == src.map.keys()[i],
        call_ensures(ShardedSafeTensors::entry, (src, name), Some(e)),
        shape@ == e.shape@,
        call_ensures(request, (name, shape, opts), alone),
    ensures
        r@.len() == src.map.keys().len(),
        r@[i] == alone,
{
}

/// Experts, embeddings and attention have their types from the recipe, and no other role has one.
pub proof fn law_recipe_by_role(role: PackRole, opts: &PackOptions, r: Option<u32>)
    requires
        call_ensures(PackRole::wanted, (role, opts), r),
    ensures
        role == PackRole::Experts ==> r == Some(opts.expert_type),
        role == PackRole::Embeddings ==> r == Some(opts.embed_type),
        role == PackRole::Attention ==> r == Some(opts.attn_type),
        role != PackRole::Experts && role != PackRole::Embeddings && role != PackRole::Attention
            ==> r is None,
{
}

/// The last dimension makes a row, and the others count rows.
pub proof fn law_rows_and_columns(shape: &[u64], lead: &[u64], rows: u64, r: Option<(usize, usize)>)
    requires
        shape@.len() > 0,
        lead@ == shape@.subrange(0, shape@.len() - 1),
        call_ensures(count_elems, (lead,), Some(rows)),
        call_ensures(flatten, (shape,), r),
        rows <= usize::MAX,
        shape@[shape@.len() - 1] <= usize::MAX,
    ensures
        r == Some((rows as usize, shape@[shape@.len() - 1] as usize)),
{
    assert(shape@.drop_last() =~= lead@);
}

/// A row of a type that has no blocks is refused, and so is one that is not whole blocks; every other
/// row that can be counted has its bytes.
pub proof fn law_rows_that_are_refused(
    t: u32,
    cols: usize,
    layout: Option<(usize, usize)>,
    r: Result<usize, PackError>,
    e: &UnknownType,
    told: String,
)
    requires
        call_ensures(row_bytes, (t, cols), r),
        call_ensures(block_layout, (t,), layout),
        call_ensures(UnknownType::message, (e,), told),
    ensures
        t == 1 && 2 * cols <= usize::MAX ==> r is Ok,
        t != 1 && layout is None ==> r == Err::<usize, _>(PackError::UnsupportedType(t)),
        t != 1 ==> (layout matches Some((block, bytes)) ==> {
            &&& cols % block != 0 ==> r == Err::<usize, _>(
                (PackError::NotDivisible { ggml_type: t, cols, block }),
            )
            &&& cols % block == 0 && cols / block * bytes <= usize::MAX ==> r is Ok
        }),
        told@ == "unknown quant type `"@ + e.name@
            + "`; minglang has kernels for Q4_K, Q6_K, Q5_0, Q8_0, F16"@,
{
}

} // verus!
