//! The files of a pack: what their headers and the manifest say.
use vstd::prelude::*;
use crate::json;
use crate::json::{object_of, put, text_value, Json, JsonModel};
use crate::names::NameMap;
use crate::pack;
use crate::pack::{quant_name, PackError, PackOptions, PackPlan, Planned, PlannedModel, ROW_CHUNK};
use crate::safetensors::shards;
use crate::safetensors::shards::{uints, ItemModel, ShardItem};
use crate::safetensors::{EntryModel, StDtype};
use crate::text;

verus! {

/// What planned tensors stand for.
pub open spec fn planned_models(planned: Seq<Planned>) -> Seq<PlannedModel> {
    Seq::new(planned.len(), |i: int| planned[i]@)
}

/// A tensor as the header of its file describes it: a quantized tensor is so many bytes.
pub open spec fn packed_item(p: PlannedModel) -> ItemModel {
    match p.plan {
        PackPlan::Passthrough => ItemModel {
            name: p.name,
            dtype: p.src_dtype,
            shape: p.shape,
            nbytes: p.out_bytes,
        },
        PackPlan::Quantize { .. } => ItemModel {
            name: p.name,
            dtype: StDtype::U8,
            shape: seq![p.out_bytes as u64],
            nbytes: p.out_bytes,
        },
    }
}

/// The tensors of a pack as the headers of its files describe them.
pub open spec fn packed_items(planned: Seq<PlannedModel>) -> Seq<ItemModel> {
    Seq::new(planned.len(), |i: int| packed_item(planned[i]))
}

/// The tensors of a pack as the headers of its files describe them.
pub fn pack_items(planned: &[Planned]) -> (r: Vec<ShardItem>)
    ensures
        shards::item_models(r@) == packed_items(planned_models(planned@)),
{
    let n: usize = planned.len();
    let mut out: Vec<ShardItem> = Vec::new();
    let mut i: usize = 0;
    while i < n
        invariant
            i <= n == planned@.len(),
            out@.len() == i,
            forall|j: int| 0 <= j < i ==> (#[trigger] out@[j])@ == packed_item(planned@[j]@),
        decreases n - i,
    {
        let p = &planned[i];
        let (dtype, shape) = match p.plan {
            PackPlan::Passthrough => (
                p.src_dtype,
                vstd::slice::slice_to_vec(p.shape.as_slice()),
            ),
            PackPlan::Quantize { .. } => {
                let mut flat: Vec<u64> = Vec::new();
                flat.push(p.out_bytes);
                assert(flat@ =~= seq![p.out_bytes]);
                (StDtype::U8, flat)
            },
        };
        out.push(ShardItem { name: p.name.clone(), dtype, shape, nbytes: p.out_bytes });
        i = i + 1;
    }
    assert(shards::item_models(out@) =~= packed_items(planned_models(planned@)));
    out
}

/// The bytes of the first `n` tensors of a pack.
pub open spec fn packed_bytes(planned: Seq<PlannedModel>, n: int) -> nat
    decreases n,
{
    if n <= 0 {
        0
    } else {
        packed_bytes(planned, n - 1) + planned[n - 1].out_bytes
    }
}

/// Sums grow, and the headers count the same bytes.
proof fn lemma_packed_bytes(planned: Seq<PlannedModel>, i: int, j: int)
    requires
        0 <= i <= j <= planned.len(),
    ensures
        packed_bytes(planned, i) <= packed_bytes(planned, j),
        shards::offset_of(packed_items(planned), j) == packed_bytes(planned, j),
    decreases j,
{
    if j > 0 {
        if i < j {
            lemma_packed_bytes(planned, i, j - 1);
        } else {
            lemma_packed_bytes(planned, i - 1, j - 1);
        }
    }
}

/// The bytes of all tensors of a pack; none where they do not fit in 64 bits.
pub fn pack_total(planned: &[Planned]) -> (r: Option<u64>)
    ensures
        match r {
            Some(n) => n == shards::offset_of(
                packed_items(planned_models(planned@)),
                planned@.len() as int,
            ),
            None => shards::offset_of(
                packed_items(planned_models(planned@)),
                planned@.len() as int,
            ) > u64::MAX,
        },
{
    let ghost m = planned_models(planned@);
    let n: usize = planned.len();
    let mut total: u64 = 0;
    let mut i: usize = 0;
    proof {
        lemma_packed_bytes(m, n as int, n as int);
    }
    while i < n
        invariant
            i <= n == planned@.len(),
            m == planned_models(planned@),
            total == packed_bytes(m, i as int),
            shards::offset_of(packed_items(m), n as int) == packed_bytes(m, n as int),
        decreases n - i,
    {
        proof {
            lemma_packed_bytes(m, i + 1, n as int);
        }
        match total.checked_add(planned[i].out_bytes) {
            Some(t) => {
                total = t;
            },
            None => return None,
        }
        i = i + 1;
    }
    Some(total)
}

/// What the manifest says of a quantized tensor, by key.
pub open spec fn entry_members(p: PlannedModel) -> Map<Seq<char>, JsonModel> {
    match p.plan {
        PackPlan::Passthrough => Map::empty(),
        PackPlan::Quantize { ggml_type, rows, cols, row_bytes, .. } => Map::empty().insert(
            "format"@,
            JsonModel::Text(pack::pack_type_name(ggml_type)),
        ).insert("ggml_type"@, JsonModel::UInt(ggml_type as u64)).insert(
            "shape"@,
            shards::uint_list(p.shape),
        ).insert("rows"@, JsonModel::UInt(rows as u64)).insert(
            "cols"@,
            JsonModel::UInt(cols as u64),
        ).insert("row_bytes"@, JsonModel::UInt(row_bytes as u64)).insert(
            "nbytes"@,
            JsonModel::UInt(p.out_bytes as u64),
        ),
    }
}

/// What the manifest says of a quantized tensor.
pub open spec fn manifest_entry(p: PlannedModel) -> Option<JsonModel> {
    match p.plan {
        PackPlan::Passthrough => None,
        PackPlan::Quantize { .. } => Some(json::object(entry_members(p))),
    }
}

/// The quantized ones of the first `n` tensors, as the manifest lists them.
pub open spec fn manifest_tensors(planned: Seq<PlannedModel>, n: int) -> Map<Seq<char>, JsonModel>
    decreases n,
{
    if n <= 0 {
        Map::empty()
    } else {
        match manifest_entry(planned[n - 1]) {
            Some(v) => manifest_tensors(planned, n - 1).insert(planned[n - 1].name, v),
            None => manifest_tensors(planned, n - 1),
        }
    }
}

/// What the manifest says of the recipe, by key.
pub open spec fn recipe_members(opts: PackOptions) -> Map<Seq<char>, JsonModel> {
    Map::empty().insert("experts"@, JsonModel::Text(pack::pack_type_name(opts.expert_type))).insert(
        "attention"@,
        JsonModel::Text(pack::pack_type_name(opts.attn_type)),
    ).insert("embeddings"@, JsonModel::Text(pack::pack_type_name(opts.embed_type)))
}

/// What the manifest says, by key.
pub open spec fn manifest_members(
    planned: Seq<PlannedModel>,
    opts: PackOptions,
    producer: Seq<char>,
) -> Map<Seq<char>, JsonModel> {
    Map::empty().insert("format_version"@, JsonModel::UInt(1)).insert(
        "producer"@,
        JsonModel::Text(producer),
    ).insert("source"@, JsonModel::Text(opts.input_dir@)).insert(
        "recipe"@,
        json::object(recipe_members(opts)),
    ).insert("tensors"@, json::object(manifest_tensors(planned, planned.len() as int)))
}

/// The manifest of a pack.
pub open spec fn manifest_model(
    planned: Seq<PlannedModel>,
    opts: PackOptions,
    producer: Seq<char>,
) -> JsonModel {
    json::object(manifest_members(planned, opts, producer))
}

/// An empty object under construction.
fn no_members() -> (r: NameMap<Json>)
    ensures
        r.wf(),
        json::models(r@) == Map::<Seq<char>, JsonModel>::empty(),
        json::all_normal(json::models(r@)),
{
    let r: NameMap<Json> = NameMap::new();
    assert(json::models(r@) =~= Map::<Seq<char>, JsonModel>::empty());
    r
}

/// What the manifest says of a tensor.
fn entry_json(p: &Planned) -> (r: Option<Json>)
    ensures
        match manifest_entry(p@) {
            Some(v) => r matches Some(x) && x@ == v && json::members(x@) == entry_members(p@)
                && json::normal(x@),
            None => r is None,
        },
{
    match p.plan {
        PackPlan::Passthrough => None,
        PackPlan::Quantize { ggml_type, rows, cols, row_bytes, fell_back: _ } => {
            let mut m = no_members();
            put(&mut m, "format", text_value(quant_name(ggml_type)));
            put(&mut m, "ggml_type", Json::UInt(ggml_type as u64));
            put(&mut m, "shape", uints(p.shape.as_slice()));
            put(&mut m, "rows", Json::UInt(rows as u64));
            put(&mut m, "cols", Json::UInt(cols as u64));
            put(&mut m, "row_bytes", Json::UInt(row_bytes as u64));
            put(&mut m, "nbytes", Json::UInt(p.out_bytes));
            Some(object_of(m))
        },
    }
}

/// The manifest of a pack: the recipe, and how to read each quantized tensor. A tensor that is not
/// listed is to be read by its type and shape.
pub fn manifest(planned: &[Planned], opts: &PackOptions, producer: &str) -> (r: Json)
    ensures
        r@ == manifest_model(planned_models(planned@), *opts, producer@),
        json::members(r@) == manifest_members(planned_models(planned@), *opts, producer@),
        json::members(json::object(recipe_members(*opts))) == recipe_members(*opts),
        json::members(
            json::object(manifest_tensors(planned_models(planned@), planned@.len() as int)),
        ) == manifest_tensors(planned_models(planned@), planned@.len() as int),
        forall|i: int|
            0 <= i < planned@.len() && (#[trigger] planned@[i]).plan is Quantize ==> json::members(
                json::object(entry_members(planned@[i]@)),
            ) == entry_members(planned@[i]@),
        json::normal(r@),
{
    let ghost all = planned_models(planned@);
    let n: usize = planned.len();
    let mut tensors = no_members();
    let mut i: usize = 0;
    while i < n
        invariant
            i <= n == planned@.len(),
            all == planned_models(planned@),
            tensors.wf(),
            json::models(tensors@) == manifest_tensors(all, i as int),
            json::all_normal(json::models(tensors@)),
            forall|k: int|
                0 <= k < i && (#[trigger] planned@[k]).plan is Quantize ==> json::members(
                    json::object(entry_members(planned@[k]@)),
                ) == entry_members(planned@[k]@),
        decreases n - i,
    {
        assert(all[i as int] == planned@[i as int]@);
        match entry_json(&planned[i]) {
            Some(v) => {
                put(&mut tensors, planned[i].name.as_str(), v);
            },
            None => {},
        }
        i = i + 1;
    }
    let mut recipe = no_members();
    put(&mut recipe, "experts", text_value(quant_name(opts.expert_type)));
    put(&mut recipe, "attention", text_value(quant_name(opts.attn_type)));
    put(&mut recipe, "embeddings", text_value(quant_name(opts.embed_type)));
    let mut m = no_members();
    put(&mut m, "format_version", Json::UInt(1));
    put(&mut m, "producer", text_value(producer));
    put(&mut m, "source", text_value(opts.input_dir.as_str()));
    put(&mut m, "recipe", object_of(recipe));
    put(&mut m, "tensors", object_of(tensors));
    object_of(m)
}

/// The manifest lists a tensor exactly where it is quantized.
pub proof fn law_manifest_lists_the_quantized(planned: Seq<PlannedModel>, n: int, i: int)
    requires
        0 <= i < n <= planned.len(),
        forall|a: int, b: int|
            0 <= a < b < planned.len() ==> (#[trigger] planned[a]).name != (
            #[trigger] planned[b]).name,
    ensures
        manifest_tensors(planned, n).dom().contains(planned[i].name) <==> planned[i].plan
            is Quantize,
        planned[i].plan is Quantize ==> Some(manifest_tensors(planned, n)[planned[i].name])
            == manifest_entry(planned[i]),
    decreases n,
{
    if i < n - 1 {
        law_manifest_lists_the_quantized(planned, n - 1, i);
        assert(planned[i].name != planned[n - 1].name);
    } else {
        lemma_not_listed(planned, n - 1, planned[i].name);
    }
}

/// A name that no tensor has is not listed.
proof fn lemma_not_listed(planned: Seq<PlannedModel>, n: int, name: Seq<char>)
    requires
        0 <= n <= planned.len(),
        forall|a: int| 0 <= a < n ==> (#[trigger] planned[a]).name != name,
    ensures
        !manifest_tensors(planned, n).dom().contains(name),
    decreases n,
{
    if n > 0 {
        lemma_not_listed(planned, n - 1, name);
    }
}

/// What the header says of a quantized tensor and what the manifest says of it agree: it is a row
/// of bytes, as many as its rows have.
pub proof fn law_header_and_manifest_agree(
    name: Seq<char>,
    e: EntryModel,
    opts: PackOptions,
    fallback: (u32, bool),
)
    ensures
        pack::planned_as(name, e, opts, fallback) matches Ok(p) ==> match p.plan {
            PackPlan::Passthrough => packed_item(p).dtype == e.dtype && packed_item(p).shape
                == e.shape && manifest_entry(p) is None,
            PackPlan::Quantize { ggml_type, rows, cols, row_bytes, .. } => {
                &&& packed_item(p).dtype == StDtype::U8
                &&& packed_item(p).shape == seq![(rows * row_bytes) as u64]
                &&& packed_item(p).nbytes == rows * row_bytes
                &&& pack::row_size(ggml_type, cols) == Ok::<usize, PackError>(row_bytes)
            },
        },
{
    pack::law_quantized_bytes_are_the_rows(name, e, opts, fallback);
}

/// Files that are copied as they are: all but the tensors and their index.
pub open spec fn is_support(name: Seq<char>) -> bool {
    text::stripped_suffix(name, ".safetensors"@) is None && name != "model.safetensors.index.json"@
}

/// Whether a file is copied as it is.
pub fn is_support_file(name: &str) -> (r: bool)
    ensures
        r == is_support(name@),
{
    !text::ends_with(name, ".safetensors") && !text::same(name, "model.safetensors.index.json")
}

/// How many rows are quantized at a time, where `done` of them are.
pub fn next_rows(done: usize, rows: usize) -> (r: usize)
    requires
        done <= rows,
    ensures
        r == if rows - done < ROW_CHUNK {
            rows - done
        } else {
            ROW_CHUNK as int
        },
        done < rows ==> r > 0,
{
    if rows - done < ROW_CHUNK {
        rows - done
    } else {
        ROW_CHUNK
    }
}

} // verus!
