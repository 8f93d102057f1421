//! What a conversion promises of the tensors and the record that it writes.
use vstd::prelude::*;
use crate::json;
use crate::json::{Json, JsonModel};
use crate::moefy;
use crate::moefy::config::{convert_config, ConfigError, ConvertedConfig, ModelSizes};
use crate::moefy::layers;
use crate::moefy::layers::{discover_layers, DenseLayer, LayerError};
use crate::moefy::payload;
use crate::moefy::payload::{
    gather_down, pack_gate_up, random_units, stable_seed, step, PayloadModel,
};
use crate::moefy::plan;
use crate::moefy::plan::{build_output_plan, OutputModel, OutputTensor, PlanError};
use crate::moefy::run;
use crate::moefy::run::{
    count_input, count_output, fill, is_support_file, manifest, plan_conversion, shard_items,
    Filling, MoefyError, MoefyPlan,
};
use crate::moefy::{parse_size, SizeError};
use crate::safetensors::load::TensorSource;
use crate::safetensors::sharded::ShardedSafeTensors;
use crate::safetensors::shards;
use crate::safetensors::shards::ShardItem;
use crate::safetensors::{StDtype, StError};
use crate::text;

verus! {

/// A size with its unit stands for so many times the unit: bytes without a unit, and powers of 1024
/// for K, M and G, which may have a B or an iB behind them, in either case and after a space. Any
/// other unit is refused, and so is a size that does not fit in 64 bits.
pub proof fn law_sizes_are_counted_in_units(
    s: &str,
    n: nat,
    u: Seq<char>,
    r: Result<u64, SizeError>,
)
    requires
        call_ensures(parse_size, (s,), r),
        s@ == text::decimal(n) + u,
        n <= u64::MAX,
        u.len() > 0 ==> !text::is_digit(u[0]) && !text::is_space(u.last()),
    ensures
        ({
            let unit = text::uppercase(text::trimmed(u));
            let bytes = unit == ""@ || unit == "B"@;
            let kilo = unit == "K"@ || unit == "KB"@ || unit == "KIB"@;
            let mega = unit == "M"@ || unit == "MB"@ || unit == "MIB"@;
            let giga = unit == "G"@ || unit == "GB"@ || unit == "GIB"@;
            &&& bytes ==> r == Ok::<u64, SizeError>(n as u64)
            &&& kilo && 0x400 * n <= u64::MAX ==> r == Ok::<u64, SizeError>((0x400 * n) as u64)
            &&& kilo && 0x400 * n > u64::MAX ==> r == Err::<u64, _>(SizeError::Overflow)
            &&& mega && 0x10_0000 * n <= u64::MAX ==> r == Ok::<u64, SizeError>(
                (0x10_0000 * n) as u64,
            )
            &&& mega && 0x10_0000 * n > u64::MAX ==> r == Err::<u64, _>(SizeError::Overflow)
            &&& giga && 0x4000_0000 * n <= u64::MAX ==> r == Ok::<u64, SizeError>(
                (0x4000_0000 * n) as u64,
            )
            &&& giga && 0x4000_0000 * n > u64::MAX ==> r == Err::<u64, _>(SizeError::Overflow)
            &&& !bytes && !kilo && !mega && !giga <==> r == Err::<u64, _>(SizeError::UnknownSuffix)
        }),
{
    let d = text::decimal(n);
    let t = s@;
    text::lemma_decimal(n);
    assert(text::is_digit(d[0]) && text::is_digit(d[d.len() - 1]));
    assert(t[0] == d[0]);
    assert(t.last() == if u.len() > 0 {
        u.last()
    } else {
        d.last()
    });
    text::laws::lemma_trimmed_plain(t);
    assert forall|i: int| 0 <= i < d.len() implies text::is_digit(#[trigger] d[i]) by {}
    text::laws::lemma_digits_in_front(d, u);
    assert(t.subrange(0, d.len() as int) =~= d);
    assert(text::after(t, d.len() as int) =~= u);
    text::law_decimal_parses(n, u64::MAX as nat);
    reveal_strlit("");
    reveal_strlit("B");
    reveal_strlit("K");
    reveal_strlit("KB");
    reveal_strlit("KIB");
    reveal_strlit("M");
    reveal_strlit("MB");
    reveal_strlit("MIB");
    reveal_strlit("G");
    reveal_strlit("GB");
    reveal_strlit("GIB");
    assert(""@.len() == 0 && "B"@.len() == 1 && "B"@[0] == 'B');
    assert("K"@.len() == 1 && "K"@[0] == 'K' && "M"@.len() == 1 && "M"@[0] == 'M' && "G"@.len() == 1
        && "G"@[0] == 'G');
    assert("KB"@.len() == 2 && "KB"@[0] == 'K' && "MB"@.len() == 2 && "MB"@[0] == 'M' && "GB"@.len()
        == 2 && "GB"@[0] == 'G');
    assert("KIB"@.len() == 3 && "KIB"@[0] == 'K' && "MIB"@.len() == 3 && "MIB"@[0] == 'M'
        && "GIB"@.len() == 3 && "GIB"@[0] == 'G');
    assert(n * 0x400 == 0x400 * n && n * 0x10_0000 == 0x10_0000 * n && n * 0x4000_0000
        == 0x4000_0000 * n && n * 1 == n);
    let unit = text::uppercase(text::trimmed(u));
    assert(text::parsed_up_to(t.subrange(0, d.len() as int), u64::MAX as nat) == Some(n));
    match moefy::unit_factor(unit) {
        None => {},
        Some(f) => {
            assert(f == 1 || f == 0x400 || f == 0x10_0000 || f == 0x4000_0000);
            assert(n * f > u64::MAX ==> r == Err::<u64, _>(SizeError::Overflow));
            assert(n * f <= u64::MAX ==> r == Ok::<u64, SizeError>((n * f) as u64));
        },
    }
}

/// The dense blocks are those of the text model and then those of the heads that predict further
/// tokens, each with its three projections under their names. They hold plain floats of one type and
/// have the shapes that the sizes ask for, and the experts share out their width.
pub proof fn law_blocks_are_found_by_name<S: TensorSource>(
    src: &S,
    sizes: ModelSizes,
    experts: usize,
    v: Vec<DenseLayer>,
    i: int,
)
    requires
        experts > 0,
        call_ensures(
            discover_layers::<S>,
            (src, sizes, experts),
            Ok::<Vec<DenseLayer>, LayerError>(v),
        ),
        sizes.intermediate as int % experts as int == 0,
        0 <= i < sizes.n_layers + sizes.mtp_layers,
    ensures
        v@.len() == sizes.n_layers + sizes.mtp_layers,
        ({
            let l = v@[i];
            let (gate, up, down) = (
                src.entry_at(l.gate@),
                src.entry_at(l.up@),
                src.entry_at(l.down@),
            );
            let (h, w) = (sizes.hidden as u64, sizes.intermediate as u64);
            &&& i < sizes.n_layers ==> l.prefix@ == "model.language_model.layers."@ + text::decimal(
                i as nat,
            ) + ".mlp"@
            &&& i >= sizes.n_layers ==> l.prefix@ == "mtp.layers."@ + text::decimal(
                (i - sizes.n_layers) as nat,
            ) + ".mlp"@
            &&& l.gate@ == l.prefix@ + ".gate_proj.weight"@
            &&& l.up@ == l.prefix@ + ".up_proj.weight"@
            &&& l.down@ == l.prefix@ + ".down_proj.weight"@
            &&& gate is Some && up is Some && down is Some
            &&& gate->0.dtype == l.dtype && up->0.dtype == l.dtype && down->0.dtype == l.dtype
            &&& l.dtype == StDtype::BF16 || l.dtype == StDtype::F16 || l.dtype == StDtype::F32
            &&& gate->0.shape == seq![w, h] && up->0.shape == seq![w, h] && down->0.shape == seq![
                h,
                w,
            ]
            &&& l.hidden == sizes.hidden && l.intermediate == sizes.intermediate
            &&& l.expert_intermediate * experts == sizes.intermediate
        }),
{
    let lm = layers::layer_models(v@);
    assert(lm == layers::layer_list(src, sizes, experts));
    assert(lm.len() == v@.len());
    assert(lm[i] == v@[i]@);
    assert(layers::fault_at(src, sizes, i as nat) is None);
    let w = sizes.intermediate;
    assert(w / experts * experts == w) by (nonlinear_arith)
        requires
            experts > 0,
            w as int % experts as int == 0,
    ;
}

/// A tensor of this name stands in a plan, and is this.
pub open spec fn planned(v: Seq<OutputTensor>, m: OutputModel) -> bool {
    exists|i: int| 0 <= i < v.len() && (#[trigger] v[i])@ == m
}

/// What takes the place of a block stands in the plan.
proof fn lemma_made_stands(
    src: &ShardedSafeTensors<'_>,
    layers: Seq<layers::LayerModel>,
    experts: usize,
    v: Seq<OutputTensor>,
    i: int,
    k: int,
)
    requires
        plan::is_plan(src, layers, experts, v),
        0 <= i < layers.len(),
        0 <= k < 7,
    ensures
        planned(v, plan::made_of(layers[i], experts)[k]),
{
    let list = plan::all_tensors(src, src.map.keys(), layers, experts);
    let copies = plan::copies(src, src.map.keys(), layers);
    lemma_made_at(layers, experts, i, k);
    let at = choose|at: int|
        0 <= at < plan::made(layers, experts).len() && #[trigger] plan::made(layers, experts)[at]
            == plan::made_of(layers[i], experts)[k];
    assert(list[copies.len() + at] == plan::made_of(layers[i], experts)[k]);
}

/// What takes the place of a block is among what takes the place of all.
proof fn lemma_made_at(layers: Seq<layers::LayerModel>, experts: usize, i: int, k: int)
    requires
        0 <= i < layers.len(),
        0 <= k < 7,
    ensures
        exists|at: int|
            0 <= at < plan::made(layers, experts).len() && #[trigger] plan::made(
                layers,
                experts,
            )[at] == plan::made_of(layers[i], experts)[k],
    decreases layers.len(),
{
    let before = plan::made(layers.drop_last(), experts);
    let all = plan::made(layers, experts);
    let m = plan::made_of(layers[i], experts);
    assert(m.len() == 7);
    if i < layers.len() - 1 {
        lemma_made_at(layers.drop_last(), experts, i, k);
        let at = choose|at: int|
            0 <= at < before.len() && #[trigger] before[at] == plan::made_of(
                layers.drop_last()[i],
                experts,
            )[k];
        assert(all[at] == before[at]);
    } else {
        assert(all[before.len() + k] == m[k]);
    }
}

/// A dense block becomes the packed gate and up projections of all experts, their packed down
/// projections, a router with a row for each expert, and a shared expert of width one with its gate,
/// all of the block's type. The router is random and the shared expert is zero.
pub proof fn law_blocks_become_experts(
    src: &ShardedSafeTensors<'_>,
    layers: &[DenseLayer],
    experts: usize,
    v: Vec<OutputTensor>,
    i: int,
    seed: u64,
    prefix: &str,
)
    requires
        call_ensures(
            build_output_plan,
            (src, layers, experts),
            Ok::<Vec<OutputTensor>, PlanError>(v),
        ),
        0 <= i < layers@.len(),
        prefix@ == layers@[i].prefix@,
        call_ensures(stable_seed, (prefix,), seed),
    ensures
        ({
            let l = layers@[i];
            let h = l.hidden as u64;
            let w = l.expert_intermediate;
            let size = l.dtype.size_of();
            let zeros = |name: Seq<char>, shape: Seq<u64>|
                OutputModel {
                    name: l.prefix@ + name,
                    dtype: l.dtype,
                    shape,
                    nbytes: l.hidden as nat * size,
                    payload: PayloadModel::Zeros,
                };
            &&& planned(
                v@,
                OutputModel {
                    name: l.prefix@ + ".experts.gate_up_proj"@,
                    dtype: l.dtype,
                    shape: seq![experts as u64, (2 * w) as u64, h],
                    nbytes: experts as nat * (2 * w as nat) * l.hidden as nat * size,
                    payload: PayloadModel::GateUp {
                        gate: l.gate@,
                        up: l.up@,
                        experts,
                        expert_intermediate: w,
                        hidden: l.hidden,
                    },
                },
            )
            &&& planned(
                v@,
                OutputModel {
                    name: l.prefix@ + ".experts.down_proj"@,
                    dtype: l.dtype,
                    shape: seq![experts as u64, h, w as u64],
                    nbytes: experts as nat * l.hidden as nat * w as nat * size,
                    payload: PayloadModel::Down {
                        source: l.down@,
                        experts,
                        hidden: l.hidden,
                        intermediate: l.intermediate,
                        expert_intermediate: w,
                    },
                },
            )
            &&& planned(
                v@,
                OutputModel {
                    name: l.prefix@ + ".gate.weight"@,
                    dtype: l.dtype,
                    shape: seq![experts as u64, h],
                    nbytes: experts as nat * l.hidden as nat * 1 * size,
                    payload: PayloadModel::RandomRouter { seed, amplitude: 0x3ca3_d70a },
                },
            )
            &&& planned(v@, zeros(".shared_expert.gate_proj.weight"@, seq![1u64, h]))
            &&& planned(v@, zeros(".shared_expert.up_proj.weight"@, seq![1u64, h]))
            &&& planned(v@, zeros(".shared_expert.down_proj.weight"@, seq![h, 1u64]))
            &&& planned(v@, zeros(".shared_expert_gate.weight"@, seq![1u64, h]))
        }),
{
    let lm = layers::layer_models(layers@);
    assert(lm[i] == layers@[i]@);
    lemma_made_stands(src, lm, experts, v@, i, 0);
    lemma_made_stands(src, lm, experts, v@, i, 1);
    lemma_made_stands(src, lm, experts, v@, i, 2);
    lemma_made_stands(src, lm, experts, v@, i, 3);
    lemma_made_stands(src, lm, experts, v@, i, 4);
    lemma_made_stands(src, lm, experts, v@, i, 5);
    lemma_made_stands(src, lm, experts, v@, i, 6);
}

/// A tensor of the checkpoint that is no projection of a block is copied under its name, with its
/// type, its shape and its bytes; the projections of the blocks are not.
pub proof fn law_everything_else_is_copied(
    src: &ShardedSafeTensors<'_>,
    layers: &[DenseLayer],
    experts: usize,
    v: Vec<OutputTensor>,
    k: int,
)
    requires
        call_ensures(
            build_output_plan,
            (src, layers, experts),
            Ok::<Vec<OutputTensor>, PlanError>(v),
        ),
        0 <= k < src.map.keys().len(),
        forall|i: int|
            0 <= i < layers@.len() ==> (#[trigger] layers@[i]).gate@ != src.map.keys()[k]
                && layers@[i].up@ != src.map.keys()[k] && layers@[i].down@ != src.map.keys()[k],
    ensures
        ({
            let name = src.map.keys()[k];
            let e = src.entry_at(name)->0;
            planned(
                v@,
                OutputModel {
                    name,
                    dtype: e.dtype,
                    shape: e.shape,
                    nbytes: (e.end - e.start) as nat,
                    payload: PayloadModel::Copy { source: name },
                },
            )
        }),
{
    let lm = layers::layer_models(layers@);
    assert(!plan::is_dense(lm, src.map.keys()[k])) by {
        if plan::is_dense(lm, src.map.keys()[k]) {
            let i = choose|i: int|
                0 <= i < lm.len() && ((#[trigger] lm[i]).gate == src.map.keys()[k] || lm[i].up
                    == src.map.keys()[k] || lm[i].down == src.map.keys()[k]);
            assert(lm[i] == layers@[i]@);
            assert(layers@[i].gate@ != src.map.keys()[k]);
        }
    }
    plan::law_other_tensors_are_copied(src, lm, experts, v@, k);
}

/// Of the packed projections each expert has first its rows of `gate` and then its rows of `up`: its
/// own slice of both, byte for byte.
pub proof fn law_experts_have_their_gate_and_up_rows(
    gate: &[u8],
    up: &[u8],
    experts: usize,
    group: usize,
    r: Vec<u8>,
    e: int,
    j: int,
)
    requires
        call_ensures(pack_gate_up, (gate, up, experts, group), r),
        0 <= e < experts,
        0 <= j < group,
    ensures
        r@.len() == 2 * (experts * group),
        r@[2 * (e * group) + j] == gate@[e * group + j],
        r@[2 * (e * group) + group + j] == up@[e * group + j],
{
    let g = group as int;
    payload::lemma_place(e, g, j);
    payload::lemma_place(e, g, g + j);
    assert(0 <= e * g && e * g + g <= experts * g) by (nonlinear_arith)
        requires
            0 <= e,
            e + 1 <= experts,
            g >= 0,
    ;
    assert(r@[2 * (e * g) + j] == payload::gate_up_byte(gate@, up@, g, 2 * (e * g) + j));
    assert(r@[2 * (e * g) + g + j] == payload::gate_up_byte(gate@, up@, g, 2 * (e * g) + (g + j)));
}

/// Of the down projections, each expert has its columns of every row, row by row.
pub proof fn law_experts_have_their_down_columns(
    src: &[u8],
    experts: usize,
    hidden: usize,
    row: usize,
    part: usize,
    r: Vec<u8>,
    e: int,
    h: int,
    j: int,
)
    requires
        call_ensures(gather_down, (src, experts, hidden, row, part), r),
        0 <= e < experts,
        0 <= h < hidden,
        0 <= j < part,
    ensures
        r@.len() == experts * hidden * part,
        r@[(e * hidden + h) * part + j] == src@[h * row + e * part + j],
{
    let line = e * hidden + h;
    let k = line * part + j;
    assert(0 <= line < experts * hidden) by (nonlinear_arith)
        requires
            line == e * hidden + h,
            0 <= e <= experts - 1,
            0 <= h < hidden,
    ;
    assert(0 <= k < experts * hidden * part) by (nonlinear_arith)
        requires
            k == line * part + j,
            0 <= line <= experts * hidden - 1,
            0 <= j < part,
    ;
    vstd::arithmetic::div_mod::lemma_fundamental_div_mod_converse(k, part as int, line, j);
    vstd::arithmetic::div_mod::lemma_fundamental_div_mod_converse(line, hidden as int, e, h);
    assert(r@[k] == payload::down_byte(src@, hidden as int, row as int, part as int, k));
}

/// A tensor is filled as planned: a copy has the bytes of its source, the down projections are
/// multiplied by the number of experts, the shared expert is zero, and the router has a random
/// number for each of its elements, of the planned amplitude.
pub proof fn law_tensors_are_filled_as_planned<'a, S: TensorSource>(
    src: &'a S,
    t: &OutputTensor,
    f: Filling<'a>,
)
    requires
        call_ensures(fill::<S>, (src, t), Ok::<Filling<'a>, StError>(f)),
    ensures
        t.payload@ matches PayloadModel::Copy { source } ==> (f matches Filling::Copied(b) && b@
            == src.bytes_at(source)),
        t.payload@ matches PayloadModel::Down { experts, .. } ==> (f matches Filling::Scaled {
            factor,
            ..
        } && factor == experts),
        t.payload@ matches PayloadModel::GateUp { .. } ==> f is Packed,
        t.payload@ == PayloadModel::Zeros ==> (f matches Filling::Zeros(n) && n == t.nbytes),
        t.payload@ matches PayloadModel::RandomRouter { seed, amplitude } ==> (f matches Filling::Random {
            units,
            amplitude: a,
        } && a == amplitude && units@.len() == t.nbytes as nat / t.dtype.size_of()),
{
}

/// Random numbers follow from their seed alone: each is made of the upper bits of a state, and the
/// states follow on each other from the seed on by three shifts. More numbers of one seed go on
/// where fewer ended.
pub proof fn law_random_numbers_follow_from_their_seed(
    seed: u64,
    n: usize,
    m: usize,
    a: Vec<u32>,
    b: Vec<u32>,
    first: (u64, u32),
    i: int,
)
    requires
        n <= m,
        call_ensures(random_units, (seed, n), a),
        call_ensures(random_units, (seed, m), b),
        call_ensures(step, (seed,), first),
        0 <= i < n,
    ensures
        a@.len() == n && b@.len() == m,
        a@[i] == b@[i],
        a@[0] == first.1,
        first.1 as u64 == first.0 >> 40u64,
        ({
            let x = seed ^ (seed << 13u64);
            let y = x ^ (x >> 7u64);
            first.0 == y ^ (y << 17u64)
        }),
{
    assert(a@[i] == payload::state_at(seed, (i + 1) as nat) >> 40);
    assert(b@[i] == payload::state_at(seed, (i + 1) as nat) >> 40);
    assert(a@[0] == payload::state_at(seed, 1) >> 40);
    assert(payload::state_at(seed, 0) == seed);
    assert(payload::state_at(seed, 1) == payload::next_state(payload::state_at(seed, 0)));
}

/// The seed of a name is its FNV-1a hash: one more byte is mixed in by exclusive or and the product
/// with the prime, from the usual offset on. It is never zero.
pub proof fn law_seeds_are_hashes(name: &str, r: u64, b: Seq<u8>, last: u8)
    requires
        call_ensures(stable_seed, (name,), r),
        vstd::utf8::encode_utf8(name@) == b.push(last),
    ensures
        r != 0,
        payload::fnv1a(Seq::empty()) == 0xcbf2_9ce4_8422_2325,
        ({
            let mixed = (payload::fnv1a(b) ^ (last as u64)) as nat * 0x100_0000_01b3;
            let hash = mixed % 0x1_0000_0000_0000_0000;
            payload::fnv1a(b.push(last)) == hash && (hash != 0 ==> r == hash) && (hash == 0 ==> r == 1)
        }),
{
    assert(b.push(last).drop_last() =~= b);
}

/// A plan counts the bytes of its tensors one by one.
pub proof fn law_output_bytes_add_up(
    a: &[OutputTensor],
    b: &[OutputTensor],
    t: OutputTensor,
    x: Option<u64>,
    y: Option<u64>,
)
    requires
        b@ == a@.push(t),
        call_ensures(count_output, (a,), x),
        call_ensures(count_output, (b,), y),
    ensures
        a@.len() == 0 ==> x == Some(0u64),
        x is None ==> y is None,
        x matches Some(n) ==> (y is Some <==> n + t.nbytes <= u64::MAX),
        y matches Some(n) ==> n == x->0 + t.nbytes,
{
    lemma_bytes_out(a@, b@, a@.len() as int);
    assert(b@[a@.len() as int] == t);
}

/// The bytes of the first tensors.
proof fn lemma_bytes_out(a: Seq<OutputTensor>, b: Seq<OutputTensor>, n: int)
    requires
        0 <= n <= a.len() <= b.len(),
        forall|i: int| 0 <= i < a.len() ==> #[trigger] b[i] == a[i],
    ensures
        run::bytes_out(a, n) == run::bytes_out(b, n),
    decreases n,
{
    if n > 0 {
        lemma_bytes_out(a, b, n - 1);
        assert(b[n - 1] == a[n - 1]);
    }
}

/// Every file of a checkpoint is taken over but the configuration, the index, the tensors and an
/// older record.
pub proof fn law_support_files(name: &str, r: bool)
    requires
        call_ensures(is_support_file, (name,), r),
    ensures
        !r <==> name@ == "config.json"@ || name@ == "model.safetensors.index.json"@
            || ".safetensors"@.is_suffix_of(name@) || name@ == "requant_moe_conversion.json"@,
{
}

/// The record says where the checkpoint comes from, into how many experts it was split and how many
/// of them a token passes, how wide the dense blocks were and the experts are, by what the down
/// projections were multiplied, and that the model has to be trained before it is used.
pub proof fn law_record_of_a_conversion(
    source: &str,
    experts: usize,
    top_k: usize,
    intermediate: usize,
    width: usize,
    r: Json,
)
    requires
        call_ensures(manifest, (source, experts, top_k, intermediate, width), r),
    ensures
        r@.get("source"@) == Some(JsonModel::Text(source@)),
        r@.get("num_experts"@) == Some(JsonModel::UInt(experts as u64)),
        r@.get("num_experts_per_tok"@) == Some(JsonModel::UInt(top_k as u64)),
        r@.get("dense_intermediate_size"@) == Some(JsonModel::UInt(intermediate as u64)),
        r@.get("moe_intermediate_size"@) == Some(JsonModel::UInt(width as u64)),
        r@.get("shared_expert_intermediate_size"@) == Some(JsonModel::UInt(1)),
        r@.get("down_projection_scale"@) == Some(JsonModel::UInt(experts as u64)),
        r@.get("requires_training"@) == Some(JsonModel::Bool(true)),
        r@.get("inference_ready"@) == Some(JsonModel::Bool(false)),
        r@.get("architecture"@) == Some(JsonModel::Text("Qwen3_5MoeForConditionalGeneration"@)),
        r@.get("format"@) == Some(JsonModel::Text("requant-qwen38-dense-to-qwen35-moe-v1"@)),
        r@.get("strategy"@) == Some(JsonModel::Text("contiguous-neuron-partition"@)),
        r@.get("shared_expert_initialization"@) == Some(JsonModel::Text("zeros"@)),
        r@.get("router_initialization"@) == Some(
            JsonModel::Text("deterministic uniform random in [-0.02, 0.02]"@),
        ),
{
    lemma_record_keys();
    json::lemma_said(r@, "source"@);
    json::lemma_said(r@, "num_experts"@);
    json::lemma_said(r@, "num_experts_per_tok"@);
    json::lemma_said(r@, "dense_intermediate_size"@);
    json::lemma_said(r@, "moe_intermediate_size"@);
    json::lemma_said(r@, "shared_expert_intermediate_size"@);
    json::lemma_said(r@, "down_projection_scale"@);
    json::lemma_said(r@, "requires_training"@);
    json::lemma_said(r@, "inference_ready"@);
    json::lemma_said(r@, "architecture"@);
    json::lemma_said(r@, "format"@);
    json::lemma_said(r@, "strategy"@);
    json::lemma_said(r@, "shared_expert_initialization"@);
    json::lemma_said(r@, "router_initialization"@);
}

/// The keys of a record differ from each other.
proof fn lemma_record_keys()
    ensures
        "format"@.len() == 6 && "format"@[0] == 'f',
        "source"@.len() == 6 && "source"@[0] == 's',
        "architecture"@.len() == 12,
        "strategy"@.len() == 8,
        "num_experts"@.len() == 11,
        "num_experts_per_tok"@.len() == 19,
        "dense_intermediate_size"@.len() == 23,
        "moe_intermediate_size"@.len() == 21 && "moe_intermediate_size"@[0] == 'm',
        "shared_expert_intermediate_size"@.len() == 31,
        "router_initialization"@.len() == 21 && "router_initialization"@[0] == 'r',
        "shared_expert_initialization"@.len() == 28,
        "down_projection_scale"@.len() == 21 && "down_projection_scale"@[0] == 'd',
        "requires_training"@.len() == 17,
        "inference_ready"@.len() == 15,
        "notes"@.len() == 5,
{
    reveal_strlit("format");
    reveal_strlit("source");
    reveal_strlit("architecture");
    reveal_strlit("strategy");
    reveal_strlit("num_experts");
    reveal_strlit("num_experts_per_tok");
    reveal_strlit("dense_intermediate_size");
    reveal_strlit("moe_intermediate_size");
    reveal_strlit("shared_expert_intermediate_size");
    reveal_strlit("router_initialization");
    reveal_strlit("shared_expert_initialization");
    reveal_strlit("down_projection_scale");
    reveal_strlit("requires_training");
    reveal_strlit("inference_ready");
    reveal_strlit("notes");
}

/// A conversion takes its sizes and its configuration from the configuration, its blocks from the
/// checkpoint, its tensors from the blocks, and counts the bytes on both sides.
pub proof fn law_conversion_is_made_of_its_steps(
    config: &Json,
    src: &ShardedSafeTensors<'_>,
    experts: usize,
    top_k: usize,
    p: MoefyPlan,
    converted: ConvertedConfig,
    tensors: &[OutputTensor],
    bytes: Option<u64>,
    input: Option<u64>,
    key: Seq<char>,
)
    requires
        src.wf(),
        experts > 0,
        call_ensures(
            plan_conversion,
            (config, src, experts, top_k),
            Ok::<MoefyPlan, MoefyError>(p),
        ),
        call_ensures(
            convert_config,
            (config, experts, top_k),
            Ok::<ConvertedConfig, ConfigError>(converted),
        ),
        tensors@ == p.tensors@,
        call_ensures(count_output, (tensors,), bytes),
        call_ensures(count_input, (src,), input),
    ensures
        p.sizes == converted.sizes,
        p.config@.get("text_config"@) is Some && converted.config@.get("text_config"@) is Some,
        p.config@.get("text_config"@)->0.get(key) == converted.config@.get("text_config"@)->0.get(
            key,
        ),
        key != "text_config"@ ==> p.config@.get(key) == converted.config@.get(key),
        bytes == Some(p.output_bytes),
        input == Some(p.input_bytes),
{
    let (a, b) = (p.config@, converted.config@);
    json::lemma_said(a.get("text_config"@)->0, key);
    json::lemma_said(b.get("text_config"@)->0, key);
    json::lemma_said(a, key);
    json::lemma_said(b, key);
    assert(json::members(a).dom().contains(key) == json::members(b).dom().contains(key) || key
        == "text_config"@);
}

/// The files hold the planned tensors in their order, with their names, types, shapes and bytes.
pub proof fn law_files_hold_the_planned(tensors: &[OutputTensor], r: Vec<ShardItem>, i: int)
    requires
        call_ensures(shard_items, (tensors,), r),
        0 <= i < tensors@.len(),
    ensures
        r@.len() == tensors@.len(),
        r@[i].name@ == tensors@[i].name@,
        r@[i].dtype == tensors@[i].dtype,
        r@[i].shape@ == tensors@[i].shape@,
        r@[i].nbytes == tensors@[i].nbytes,
{
    let m = shards::item_models(r@);
    assert(m == run::described(tensors@));
    assert(m.len() == r@.len());
    assert(m[i] == r@[i]@);
}

/// A size without anything in it is empty, and one that does not begin with a digit is no number.
pub proof fn law_what_is_no_size(s: &str, r: Result<u64, SizeError>)
    requires
        call_ensures(parse_size, (s,), r),
    ensures
        text::trimmed(s@).len() == 0 <==> r == Err::<u64, _>(SizeError::Empty),
        text::trimmed(s@).len() > 0 && !text::is_digit(text::trimmed(s@)[0]) ==> r == Err::<u64, _>(
            SizeError::NoNumber,
        ),
{
    let t = text::trimmed(s@);
    if t.len() > 0 && !text::is_digit(t[0]) {
        assert(text::leading_digits(t) == 0);
        let none = t.subrange(0, 0);
        assert(none.len() == 0);
        assert(text::parsed_up_to(none, u64::MAX as nat) is None);
    }
}

/// The record notes what is copied, what is converted and how, and what has to follow.
pub proof fn law_record_has_its_notes(
    source: &str,
    experts: usize,
    top_k: usize,
    intermediate: usize,
    width: usize,
    r: Json,
)
    requires
        call_ensures(manifest, (source, experts, top_k, intermediate, width), r),
    ensures
        r@.get("notes"@) matches Some(JsonModel::List(l)) && {
            &&& l.len() == 6
            &&& l[0] == JsonModel::Text(
                "Attention, vision, linear-attention, embeddings, lm_head, and MTP non-MLP tensors are copied byte-for-byte."@,
            )
            &&& l[1] == JsonModel::Text(
                "The MTP MLP is converted to the same packed expert layout as the backbone MLPs."@,
            )
            &&& l[2] == JsonModel::Text(
                "Dense SwiGLU neurons are partitioned across routed experts with no duplication."@,
            )
            &&& l[3] == JsonModel::Text(
                "Expert down projections are multiplied by num_experts to preserve the dense FFN output in expectation under balanced routing."@,
            )
            &&& l[4] == JsonModel::Text(
                "The seeded random router avoids top-k tie collapse, but the checkpoint is not functionally equivalent before training."@,
            )
            &&& l[5] == JsonModel::Text(
                "Train the router and experts (with load balancing and dense-teacher distillation) before reducing or evaluating quality."@,
            )
        },
{
    lemma_record_keys();
    json::lemma_said(r@, "notes"@);
}

} // verus!
