//! The whole conversion: what is checked, what is written, and what is said about it.
use vstd::prelude::*;
use crate::json;
use crate::json::{object_of, put, text_value, Json, JsonModel};
use crate::moefy::config;
use crate::moefy::config::{convert_config, ConfigError, ModelSizes};
use crate::moefy::layers;
use crate::moefy::layers::{discover_layers, DenseLayer, LayerError, LayerModel};
use crate::moefy::payload;
use crate::moefy::payload::{gather_down, pack_gate_up, random_units, Payload, PayloadModel};
use crate::moefy::plan;
use crate::moefy::plan::{build_output_plan, OutputTensor, PlanError};
use crate::names;
use crate::names::NameMap;
use crate::safetensors::load::TensorSource;
use crate::safetensors::sharded;
use crate::safetensors::sharded::ShardedSafeTensors;
use crate::safetensors::shards;
use crate::safetensors::shards::{ItemModel, ShardItem};
use crate::safetensors::{StError, StErrorKind};
use crate::text;

verus! {

/// A conversion that cannot be done.
#[derive(Debug)]
pub enum MoefyError {
    Config(ConfigError),
    Layer(LayerError),
    Plan(PlanError),
    /// The bytes of all tensors do not fit in 64 bits.
    TooLarge,
}

/// What a conversion writes.
#[derive(Debug)]
pub struct MoefyPlan {
    pub config: Json,
    pub sizes: ModelSizes,
    pub layers: Vec<DenseLayer>,
    pub tensors: Vec<OutputTensor>,
    pub input_bytes: u64,
    pub output_bytes: u64,
}

/// The bytes of the tensors with the first `n` of these names.
pub open spec fn bytes_in<S: TensorSource>(src: &S, keys: Seq<Seq<char>>, n: int) -> nat
    decreases n,
{
    if n <= 0 {
        0
    } else {
        bytes_in(src, keys, n - 1) + match src.entry_at(keys[n - 1]) {
            Some(e) => (e.end - e.start) as nat,
            None => 0,
        }
    }
}

/// The bytes of the first `n` tensors.
pub open spec fn bytes_out(tensors: Seq<OutputTensor>, n: int) -> nat
    decreases n,
{
    if n <= 0 {
        0
    } else {
        bytes_out(tensors, n - 1) + tensors[n - 1].nbytes as nat
    }
}

/// Sums grow.
proof fn lemma_bytes_in<S: TensorSource>(src: &S, keys: Seq<Seq<char>>, i: int, j: int)
    requires
        i <= j,
    ensures
        bytes_in(src, keys, i) <= bytes_in(src, keys, j),
    decreases j - i,
{
    if i < j {
        lemma_bytes_in(src, keys, i, j - 1);
    }
}

/// Sums grow.
proof fn lemma_bytes_out(tensors: Seq<OutputTensor>, i: int, j: int)
    requires
        i <= j,
    ensures
        bytes_out(tensors, i) <= bytes_out(tensors, j),
    decreases j - i,
{
    if i < j {
        lemma_bytes_out(tensors, i, j - 1);
    }
}

/// The bytes of all tensors of a checkpoint; none where they do not fit in 64 bits.
pub fn count_input(src: &ShardedSafeTensors<'_>) -> (r: Option<u64>)
    requires
        src.wf(),
    ensures
        ({
            let total = bytes_in(src, src.map.keys(), src.map.keys().len() as int);
            match r {
                Some(n) => n == total,
                None => total > u64::MAX,
            }
        }),
{
    let names = src.names();
    let ghost keys = src.map.keys();
    let n: usize = names.len();
    let mut total: u64 = 0;
    let mut i: usize = 0;
    while i < n
        invariant
            src.wf(),
            keys == src.map.keys(),
            i <= n == names@.len() == keys.len(),
            forall|j: int| 0 <= j < n ==> (#[trigger] names@[j])@ == keys[j],
            total == bytes_in(src, keys, i as int),
        decreases n - i,
    {
        proof {
            src.map.lemma_at(i as int);
            plan::lemma_entry_range(src, keys[i as int]);
        }
        let size: u64 = match src.st_entry(names[i].as_str()) {
            Some(e) => (e.end - e.start) as u64,
            None => 0,
        };
        assert(size == match src.entry_at(keys[i as int]) {
            Some(e) => (e.end - e.start) as nat,
            None => 0,
        });
        proof {
            lemma_bytes_in(src, keys, i + 1, n as int);
        }
        match total.checked_add(size) {
            Some(t) => {
                total = t;
            },
            None => return None,
        }
        i = i + 1;
    }
    Some(total)
}

/// The bytes of all tensors of a plan; none where they do not fit in 64 bits.
pub fn count_output(tensors: &[OutputTensor]) -> (r: Option<u64>)
    ensures
        match r {
            Some(n) => n == bytes_out(tensors@, tensors@.len() as int),
            None => bytes_out(tensors@, tensors@.len() as int) > u64::MAX,
        },
{
    let n: usize = tensors.len();
    let mut total: u64 = 0;
    let mut i: usize = 0;
    while i < n
        invariant
            i <= n == tensors@.len(),
            total == bytes_out(tensors@, i as int),
        decreases n - i,
    {
        proof {
            lemma_bytes_out(tensors@, i + 1, n as int);
        }
        match total.checked_add(tensors[i].nbytes) {
            Some(t) => {
                total = t;
            },
            None => return None,
        }
        i = i + 1;
    }
    Some(total)
}

/// Works out the conversion of a checkpoint with this configuration.
pub fn plan_conversion(
    config: &Json,
    src: &ShardedSafeTensors<'_>,
    experts: usize,
    top_k: usize,
) -> (r: Result<MoefyPlan, MoefyError>)
    requires
        src.wf(),
        experts > 0 || config::dense_sizes(config@, 1) is Err,
    ensures
        match r {
            Err(MoefyError::Config(e)) => config::dense_sizes(config@, experts) == Err::<
                ModelSizes,
                ConfigError,
            >(e),
            Err(MoefyError::Layer(e)) => config::dense_sizes(config@, experts) matches Ok(sizes)
                && layers::first_fault(src, sizes, e.name@, e.kind),
            Err(MoefyError::Plan(e)) => config::dense_sizes(config@, experts) matches Ok(sizes)
                && layers::no_fault(src, sizes) && plan::plan_fault(
                src,
                layers::layer_list(src, sizes, experts),
                experts,
                e,
            ),
            Err(MoefyError::TooLarge) => config::dense_sizes(config@, experts) matches Ok(sizes)
                && layers::no_fault(src, sizes) && exists|v: Seq<OutputTensor>|
                {
                    &&& #[trigger] plan::is_plan(
                        src,
                        layers::layer_list(src, sizes, experts),
                        experts,
                        v,
                    )
                    &&& bytes_in(src, src.map.keys(), src.map.keys().len() as int) > u64::MAX
                        || bytes_out(v, v.len() as int) > u64::MAX
                },
            Ok(p) => {
                &&& config::dense_sizes(config@, experts) == Ok::<ModelSizes, ConfigError>(p.sizes)
                &&& config::is_converted(config@, p.sizes, experts, top_k, p.config@)
                &&& layers::no_fault(src, p.sizes)
                &&& layers::layer_models(p.layers@) == layers::layer_list(src, p.sizes, experts)
                &&& plan::is_plan(
                    src,
                    layers::layer_list(src, p.sizes, experts),
                    experts,
                    p.tensors@,
                )
                &&& p.input_bytes == bytes_in(
                    src,
                    src.map.keys(),
                    src.map.keys().len() as int,
                )
                &&& p.output_bytes == bytes_out(p.tensors@, p.tensors@.len() as int)
            },
        },
{
    let converted = match convert_config(config, experts, top_k) {
        Ok(c) => c,
        Err(e) => return Err(MoefyError::Config(e)),
    };
    let sizes = converted.sizes;
    let layers = match discover_layers(src, sizes, experts) {
        Ok(l) => l,
        Err(e) => return Err(MoefyError::Layer(e)),
    };
    let tensors = match build_output_plan(src, layers.as_slice(), experts) {
        Ok(t) => t,
        Err(e) => return Err(MoefyError::Plan(e)),
    };
    assert(plan::is_plan(src, layers::layer_list(src, sizes, experts), experts, tensors@));
    let input_bytes: u64 = match count_input(src) {
        Some(n) => n,
        None => return Err(MoefyError::TooLarge),
    };
    assert(plan::is_plan(src, layers::layer_list(src, sizes, experts), experts, tensors@));
    let output_bytes: u64 = match count_output(tensors.as_slice()) {
        Some(n) => n,
        None => return Err(MoefyError::TooLarge),
    };
    Ok(
        MoefyPlan {
            config: converted.config,
            sizes,
            layers,
            tensors,
            input_bytes,
            output_bytes,
        },
    )
}

/// The tensors as the headers of the files describe them.
pub open spec fn described(tensors: Seq<OutputTensor>) -> Seq<ItemModel> {
    Seq::new(
        tensors.len(),
        |i: int|
            ItemModel {
                name: tensors[i].name@,
                dtype: tensors[i].dtype,
                shape: tensors[i].shape@,
                nbytes: tensors[i].nbytes as nat,
            },
    )
}

/// The tensors of a plan as the headers of the files describe them. Their bytes are those of the
/// plan.
pub fn shard_items(tensors: &[OutputTensor]) -> (r: Vec<ShardItem>)
    ensures
        shards::item_models(r@) == described(tensors@),
        shards::offset_of(described(tensors@), tensors@.len() as int) == bytes_out(
            tensors@,
            tensors@.len() as int,
        ),
{
    let n: usize = tensors.len();
    let mut out: Vec<ShardItem> = Vec::new();
    let mut i: usize = 0;
    while i < n
        invariant
            i <= n == tensors@.len(),
            out@.len() == i,
            forall|j: int| 0 <= j < i ==> (#[trigger] out@[j])@ == described(tensors@)[j],
        decreases n - i,
    {
        out.push(
            ShardItem {
                name: tensors[i].name.clone(),
                dtype: tensors[i].dtype,
                shape: vstd::slice::slice_to_vec(tensors[i].shape.as_slice()),
                nbytes: tensors[i].nbytes,
            },
        );
        i = i + 1;
    }
    proof {
        assert(shards::item_models(out@) =~= described(tensors@));
        lemma_described_bytes(tensors@, n as int);
    }
    out
}

/// The headers count the bytes of the plan.
proof fn lemma_described_bytes(tensors: Seq<OutputTensor>, n: int)
    requires
        0 <= n <= tensors.len(),
    ensures
        shards::offset_of(described(tensors), n) == bytes_out(tensors, n),
    decreases n,
{
    if n > 0 {
        lemma_described_bytes(tensors, n - 1);
    }
}

/// A tensor that is copied has one of the names of the source.
proof fn lemma_copied_name<S: TensorSource>(
    src: &S,
    keys: Seq<Seq<char>>,
    layers: Seq<LayerModel>,
    k: int,
)
    requires
        0 <= k < plan::copies(src, keys, layers).len(),
    ensures
        exists|i: int|
            0 <= i < keys.len() && plan::copies(src, keys, layers)[k].name == #[trigger] keys[i],
    decreases keys.len(),
{
    let shorter = plan::copies(src, keys.drop_last(), layers);
    if k < shorter.len() {
        lemma_copied_name(src, keys.drop_last(), layers, k);
        let i = choose|i: int|
            0 <= i < keys.len() - 1 && shorter[k].name == #[trigger] keys.drop_last()[i];
        assert(keys[i] == keys.drop_last()[i]);
    } else {
        assert(plan::copies(src, keys, layers)[k].name == keys[keys.len() - 1]);
    }
}

/// A tensor that takes the place of a block has a name with the block's prefix.
proof fn lemma_made_name(layers: Seq<LayerModel>, experts: usize, k: int)
    requires
        0 <= k < plan::made(layers, experts).len(),
    ensures
        exists|i: int|
            0 <= i < layers.len() && #[trigger] layers[i].prefix.is_prefix_of(
                plan::made(layers, experts)[k].name,
            ),
    decreases layers.len(),
{
    let shorter = plan::made(layers.drop_last(), experts);
    if k < shorter.len() {
        lemma_made_name(layers.drop_last(), experts, k);
        let i = choose|i: int|
            0 <= i < layers.len() - 1 && #[trigger] layers.drop_last()[i].prefix.is_prefix_of(
                shorter[k].name,
            );
        assert(layers[i].prefix.is_prefix_of(plan::made(layers, experts)[k].name));
    } else {
        let l = layers.last();
        let last = plan::made_of(l, experts);
        let j = k - shorter.len();
        assert(plan::made(layers, experts)[k] == last[j]);
        assert(j == 0 || j == 1 || j == 2 || j == 3 || j == 4 || j == 5 || j == 6);
        assert(layers[layers.len() - 1].prefix.is_prefix_of(last[j].name));
    }
}

/// The tensors of a converted checkpoint have distinct names, and none has the name of a header's
/// table of strings: each file that is written is read back with all its tensors.
pub proof fn law_converted_names_are_distinct(
    src: &ShardedSafeTensors<'_>,
    sizes: ModelSizes,
    experts: usize,
    v: Seq<OutputTensor>,
)
    requires
        src.wf(),
        plan::is_plan(src, layers::layer_list(src, sizes, experts), experts, v),
    ensures
        shards::names_distinct(described(v)),
{
    let d = described(v);
    let names = Seq::new(v.len(), |i: int| v[i].name@);
    let lm = layers::layer_list(src, sizes, experts);
    let keys = src.map.keys();
    let list = plan::all_tensors(src, keys, lm, experts);
    sharded::lemma_last_holder(src.shards@, "__metadata__"@);
    assert(src.entry_at("__metadata__"@) is None) by {
        if let Some(i) = sharded::last_holder(src.shards@, "__metadata__"@) {
            assert(src.shards@[i].wf());
        }
    }
    assert forall|i: int, j: int| 0 <= i < j < d.len() implies (#[trigger] d[i]).name != (
    #[trigger] d[j]).name by {
        if names[i] == names[j] {
            names::lemma_in_order_distinct(names, i, j);
        }
    }
    assert forall|i: int| 0 <= i < d.len() implies (#[trigger] d[i]).name != "__metadata__"@ by {
        let name = v[i].name@;
        plan::lemma_by_name(list, name);
        let k = choose|k: int| 0 <= k < list.len() && (#[trigger] list[k]).name == name;
        let copied = plan::copies(src, keys, lm);
        if k < copied.len() {
            lemma_copied_name(src, keys, lm, k);
            let x = choose|x: int| 0 <= x < keys.len() && copied[k].name == #[trigger] keys[x];
            src.map.lemma_at(x);
            plan::lemma_entry_range(src, keys[x]);
        } else {
            let made = plan::made(lm, experts);
            lemma_made_name(lm, experts, k - copied.len());
            let x = choose|x: int|
                0 <= x < lm.len() && #[trigger] lm[x].prefix.is_prefix_of(
                    made[k - copied.len()].name,
                );
            reveal_strlit("model.language_model.layers.");
            reveal_strlit("mtp.layers.");
            reveal_strlit("__metadata__");
            assert(lm[x].prefix[0] == 'm');
            assert(name[0] == lm[x].prefix[0]);
        }
    }
}

/// What a tensor of the converted checkpoint is filled with.
#[derive(Debug)]
pub enum Filling<'a> {
    /// These bytes.
    Copied(&'a [u8]),
    /// These bytes.
    Packed(Vec<u8>),
    /// These floats, each multiplied by `factor`.
    Scaled { bytes: Vec<u8>, factor: usize },
    /// So many zero bytes.
    Zeros(u64),
    /// For each float 24 random bits, which stand for a number between minus and plus the
    /// amplitude.
    Random { units: Vec<u32>, amplitude: u32 },
}

/// The product of two sizes can be counted in 128 bits.
proof fn lemma_product_fits(a: nat, b: nat)
    requires
        a <= u64::MAX,
        b <= u64::MAX,
    ensures
        0 <= a * b <= u128::MAX,
{
    assert(a * b <= u64::MAX * u64::MAX) by (nonlinear_arith)
        requires
            a <= u64::MAX,
            b <= u64::MAX,
    ;
}

/// The parts that a tensor is made of are there in full.
pub open spec fn can_fill<S: TensorSource>(src: &S, t: OutputTensor) -> bool {
    let size = t.dtype.size_of();
    match t.payload@ {
        PayloadModel::GateUp { gate, up, experts, expert_intermediate, hidden } => {
            let bytes = experts * (expert_intermediate * (hidden * size));
            &&& src.entry_at(gate) is Some ==> bytes <= src.bytes_at(gate).len()
            &&& src.entry_at(up) is Some ==> bytes <= src.bytes_at(up).len()
            &&& expert_intermediate * (hidden * size) <= usize::MAX
            &&& hidden * size <= usize::MAX
        },
        PayloadModel::Down { source, experts, hidden, intermediate, expert_intermediate } => {
            let part = expert_intermediate * size;
            let row = intermediate * size;
            &&& src.entry_at(source) is Some ==> payload::down_reach(
                experts as int,
                hidden as int,
                row,
                part,
            ) <= src.bytes_at(source).len()
            &&& part <= usize::MAX
            &&& row <= usize::MAX
        },
        PayloadModel::RandomRouter { .. } => t.nbytes as nat / size <= usize::MAX,
        _ => true,
    }
}

/// Whether a source has no tensor of this name with fewer bytes.
fn has_bytes<S: TensorSource>(src: &S, name: &str, bytes: u128) -> (r: bool)
    requires
        src.ready(),
    ensures
        r == (src.entry_at(name@) is Some ==> bytes <= src.bytes_at(name@).len()),
        src.entry_at(name@) is Some ==> src.bytes_at(name@).len() <= usize::MAX,
{
    match src.st_bytes(name) {
        Ok(b) => bytes <= b.len() as u128,
        Err(_) => true,
    }
}

/// Whether the parts that a tensor is made of are there in full.
pub fn is_fillable<S: TensorSource>(src: &S, t: &OutputTensor) -> (r: bool)
    requires
        src.ready(),
    ensures
        r == can_fill(src, *t),
{
    let size: usize = t.dtype.size();
    let most: u128 = usize::MAX as u128;
    match &t.payload {
        Payload::GateUp { gate, up, experts, expert_intermediate, hidden } => {
            proof {
                lemma_product_fits(*hidden as nat, size as nat);
            }
            let row: u128 = *hidden as u128 * size as u128;
            if row > most {
                return false;
            }
            proof {
                lemma_product_fits(*expert_intermediate as nat, row as nat);
            }
            let group: u128 = *expert_intermediate as u128 * row;
            if group > most {
                return false;
            }
            proof {
                lemma_product_fits(*experts as nat, group as nat);
            }
            let bytes: u128 = *experts as u128 * group;
            has_bytes(src, gate.as_str(), bytes) && has_bytes(src, up.as_str(), bytes)
        },
        Payload::Down { source, experts, hidden, intermediate, expert_intermediate } => {
            proof {
                lemma_product_fits(*expert_intermediate as nat, size as nat);
                lemma_product_fits(*intermediate as nat, size as nat);
            }
            let part: u128 = *expert_intermediate as u128 * size as u128;
            let row: u128 = *intermediate as u128 * size as u128;
            if part > most || row > most {
                return false;
            }
            let reach: u128 = if *experts == 0 || *hidden == 0 {
                0
            } else {
                let above: usize = *hidden - 1;
                proof {
                    lemma_product_fits(above as nat, row as nat);
                    lemma_product_fits(*experts as nat, part as nat);
                }
                let before: u128 = above as u128 * row;
                let last: u128 = *experts as u128 * part;
                if before > most || last > most {
                    most + 1
                } else {
                    before + last
                }
            };
            has_bytes(src, source.as_str(), reach)
        },
        Payload::RandomRouter { .. } => (t.nbytes / (size as u64)) as u128 <= most,
        _ => true,
    }
}

/// The tensor whose bytes are missing, of those that a tensor is made of.
pub open spec fn missing<S: TensorSource>(src: &S, t: OutputTensor) -> Option<Seq<char>> {
    match t.payload@ {
        PayloadModel::Copy { source } => if src.entry_at(source) is None {
            Some(source)
        } else {
            None
        },
        PayloadModel::GateUp { gate, up, .. } => if src.entry_at(gate) is None {
            Some(gate)
        } else if src.entry_at(up) is None {
            Some(up)
        } else {
            None
        },
        PayloadModel::Down { source, .. } => if src.entry_at(source) is None {
            Some(source)
        } else {
            None
        },
        _ => None,
    }
}

/// `f` is what the tensor is filled with.
pub open spec fn is_filling<S: TensorSource>(src: &S, t: OutputTensor, f: Filling<'_>) -> bool {
    let size = t.dtype.size_of();
    match t.payload@ {
        PayloadModel::Copy { source } => f matches Filling::Copied(b) && b@ == src.bytes_at(source),
        PayloadModel::GateUp { gate, up, experts, expert_intermediate, hidden } => {
            let group = expert_intermediate * (hidden * size);
            f matches Filling::Packed(b) && b@.len() == 2 * (experts * group) && forall|k: int|
                0 <= k < b@.len() ==> #[trigger] b@[k] == payload::gate_up_byte(
                    src.bytes_at(gate),
                    src.bytes_at(up),
                    group,
                    k,
                )
        },
        PayloadModel::Down { source, experts, hidden, intermediate, expert_intermediate } => {
            let part = expert_intermediate * size;
            f matches Filling::Scaled { bytes, factor } && factor == experts && bytes@.len()
                == experts * hidden * part && forall|k: int|
                0 <= k < bytes@.len() ==> #[trigger] bytes@[k] == payload::down_byte(
                    src.bytes_at(source),
                    hidden as int,
                    intermediate * size,
                    part,
                    k,
                )
        },
        PayloadModel::Zeros => f matches Filling::Zeros(n) && n == t.nbytes,
        PayloadModel::RandomRouter { seed, amplitude: a } => f matches Filling::Random {
            units,
            amplitude,
        } && amplitude == a && units@.len() == t.nbytes as nat / size && forall|k: int|
            0 <= k < units@.len() ==> #[trigger] units@[k] == payload::state_at(
                seed,
                (k + 1) as nat,
            ) >> 40,
    }
}

/// What a tensor of the converted checkpoint is filled with.
pub fn fill<'a, S: TensorSource>(src: &'a S, t: &OutputTensor) -> (r: Result<Filling<'a>, StError>)
    requires
        src.ready(),
        can_fill(src, *t),
    ensures
        match r {
            Ok(f) => missing(src, *t) is None && is_filling(src, *t, f),
            Err(e) => missing(src, *t) == Some(e.tensor@) && e.kind == StErrorKind::NoSuchTensor,
        },
{
    let size: usize = t.dtype.size();
    match &t.payload {
        Payload::Copy { source } => match src.st_bytes(source.as_str()) {
            Ok(b) => Ok(Filling::Copied(b)),
            Err(e) => Err(e),
        },
        Payload::GateUp { gate, up, experts, expert_intermediate, hidden } => {
            let group: usize = *expert_intermediate * (*hidden * size);
            let g = match src.st_bytes(gate.as_str()) {
                Ok(b) => b,
                Err(e) => return Err(e),
            };
            let u = match src.st_bytes(up.as_str()) {
                Ok(b) => b,
                Err(e) => return Err(e),
            };
            Ok(Filling::Packed(pack_gate_up(g, u, *experts, group)))
        },
        Payload::Down { source, experts, hidden, intermediate, expert_intermediate } => {
            let part: usize = *expert_intermediate * size;
            let row: usize = *intermediate * size;
            let b = match src.st_bytes(source.as_str()) {
                Ok(b) => b,
                Err(e) => return Err(e),
            };
            let bytes = gather_down(b, *experts, *hidden, row, part);
            Ok(Filling::Scaled { bytes, factor: *experts })
        },
        Payload::Zeros => Ok(Filling::Zeros(t.nbytes)),
        Payload::RandomRouter { seed, amplitude } => {
            let count: u64 = t.nbytes / (size as u64);
            Ok(
                Filling::Random {
                    units: random_units(*seed, count as usize),
                    amplitude: *amplitude,
                },
            )
        },
    }
}

/// Files that are copied as they are: all but those that a conversion writes and the tensors.
pub open spec fn is_support(name: Seq<char>) -> bool {
    &&& name != "config.json"@
    &&& name != "model.safetensors.index.json"@
    &&& text::stripped_suffix(name, ".safetensors"@) is None
    &&& name != "requant_moe_conversion.json"@
}

/// Whether a file is copied as it is.
pub fn is_support_file(name: &str) -> (r: bool)
    ensures
        r == is_support(name@),
{
    !text::same(name, "config.json") && !text::same(name, "model.safetensors.index.json")
        && !text::ends_with(name, ".safetensors") && !text::same(
        name,
        "requant_moe_conversion.json",
    )
}

/// What is noted about a conversion.
pub open spec fn notes() -> Seq<Seq<char>> {
    seq![
        "Attention, vision, linear-attention, embeddings, lm_head, and MTP non-MLP tensors are copied byte-for-byte."@,
        "The MTP MLP is converted to the same packed expert layout as the backbone MLPs."@,
        "Dense SwiGLU neurons are partitioned across routed experts with no duplication."@,
        "Expert down projections are multiplied by num_experts to preserve the dense FFN output in expectation under balanced routing."@,
        "The seeded random router avoids top-k tie collapse, but the checkpoint is not functionally equivalent before training."@,
        "Train the router and experts (with load balancing and dense-teacher distillation) before reducing or evaluating quality."@,
    ]
}

/// The members of the record of a conversion.
pub open spec fn manifest_members(
    source: Seq<char>,
    experts: usize,
    top_k: usize,
    intermediate: usize,
    width: usize,
) -> Map<Seq<char>, JsonModel> {
    Map::<Seq<char>, JsonModel>::empty().insert(
        "format"@,
        JsonModel::Text("requant-qwen38-dense-to-qwen35-moe-v1"@),
    ).insert("source"@, JsonModel::Text(source)).insert(
        "architecture"@,
        JsonModel::Text("Qwen3_5MoeForConditionalGeneration"@),
    ).insert("strategy"@, JsonModel::Text("contiguous-neuron-partition"@)).insert(
        "num_experts"@,
        JsonModel::UInt(experts as u64),
    ).insert("num_experts_per_tok"@, JsonModel::UInt(top_k as u64)).insert(
        "dense_intermediate_size"@,
        JsonModel::UInt(intermediate as u64),
    ).insert("moe_intermediate_size"@, JsonModel::UInt(width as u64)).insert(
        "shared_expert_intermediate_size"@,
        JsonModel::UInt(1),
    ).insert(
        "router_initialization"@,
        JsonModel::Text("deterministic uniform random in [-0.02, 0.02]"@),
    ).insert("shared_expert_initialization"@, JsonModel::Text("zeros"@)).insert(
        "down_projection_scale"@,
        JsonModel::UInt(experts as u64),
    ).insert("requires_training"@, JsonModel::Bool(true)).insert(
        "inference_ready"@,
        JsonModel::Bool(false),
    ).insert("notes"@, json::text_list(notes()))
}

/// The notes as a JSON list.
fn notes_json() -> (r: Json)
    ensures
        r@ == json::text_list(notes()),
        json::normal(r@),
{
    let mut v: Vec<Json> = Vec::new();
    v.push(
        text_value(
            "Attention, vision, linear-attention, embeddings, lm_head, and MTP non-MLP tensors are copied byte-for-byte.",
        ),
    );
    v.push(
        text_value(
            "The MTP MLP is converted to the same packed expert layout as the backbone MLPs.",
        ),
    );
    v.push(
        text_value(
            "Dense SwiGLU neurons are partitioned across routed experts with no duplication.",
        ),
    );
    v.push(
        text_value(
            "Expert down projections are multiplied by num_experts to preserve the dense FFN output in expectation under balanced routing.",
        ),
    );
    v.push(
        text_value(
            "The seeded random router avoids top-k tie collapse, but the checkpoint is not functionally equivalent before training.",
        ),
    );
    v.push(
        text_value(
            "Train the router and experts (with load balancing and dense-teacher distillation) before reducing or evaluating quality.",
        ),
    );
    proof {
        json::lemma_list_model(v@);
        let m = json::list_model(v@);
        assert(m =~= notes().map_values(|t: Seq<char>| JsonModel::Text(t)));
        json::lemma_list_normal(m);
    }
    Json::List(v)
}

/// The record of a conversion.
pub fn manifest(
    source: &str,
    experts: usize,
    top_k: usize,
    intermediate: usize,
    width: usize,
) -> (r: Json)
    ensures
        r@ == json::object(manifest_members(source@, experts, top_k, intermediate, width)),
        json::members(r@) == manifest_members(source@, experts, top_k, intermediate, width),
        json::normal(r@),
{
    let mut m: NameMap<Json> = NameMap::new();
    assert(json::models(m@) =~= Map::empty());
    put(&mut m, "format", text_value("requant-qwen38-dense-to-qwen35-moe-v1"));
    put(&mut m, "source", text_value(source));
    put(&mut m, "architecture", text_value("Qwen3_5MoeForConditionalGeneration"));
    put(&mut m, "strategy", text_value("contiguous-neuron-partition"));
    put(&mut m, "num_experts", Json::UInt(experts as u64));
    put(&mut m, "num_experts_per_tok", Json::UInt(top_k as u64));
    put(&mut m, "dense_intermediate_size", Json::UInt(intermediate as u64));
    put(&mut m, "moe_intermediate_size", Json::UInt(width as u64));
    put(&mut m, "shared_expert_intermediate_size", Json::UInt(1));
    put(
        &mut m,
        "router_initialization",
        text_value("deterministic uniform random in [-0.02, 0.02]"),
    );
    put(&mut m, "shared_expert_initialization", text_value("zeros"));
    put(&mut m, "down_projection_scale", Json::UInt(experts as u64));
    put(&mut m, "requires_training", Json::Bool(true));
    put(&mut m, "inference_ready", Json::Bool(false));
    put(&mut m, "notes", notes_json());
    object_of(m)
}

} // verus!
