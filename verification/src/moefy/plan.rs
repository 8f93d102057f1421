//! The tensors of the converted checkpoint.
use vstd::prelude::*;
use crate::moefy::layers;
use crate::moefy::layers::{DenseLayer, LayerModel};
use crate::moefy::payload;
use crate::moefy::payload::{stable_seed, Payload, PayloadModel, ROUTER_AMPLITUDE_BITS};
use crate::names;
use crate::names::NameMap;
use crate::safetensors::load::TensorSource;
use crate::safetensors::sharded::ShardedSafeTensors;
use crate::safetensors::{EntryModel, StDtype, StEntry};
use crate::text;

verus! {

/// A tensor to be written.
#[derive(Debug)]
pub struct OutputTensor {
    pub name: String,
    pub dtype: StDtype,
    pub shape: Vec<u64>,
    pub nbytes: u64,
    pub payload: Payload,
}

/// What an [`OutputTensor`] stands for.
pub struct OutputModel {
    pub name: Seq<char>,
    pub dtype: StDtype,
    pub shape: Seq<u64>,
    pub nbytes: nat,
    pub payload: PayloadModel,
}

impl View for OutputTensor {
    type V = OutputModel;

    open spec fn view(&self) -> OutputModel {
        OutputModel {
            name: self.name@,
            dtype: self.dtype,
            shape: self.shape@,
            nbytes: self.nbytes as nat,
            payload: self.payload@,
        }
    }
}

/// A plan that cannot be made.
#[derive(Debug)]
pub enum PlanError {
    /// A tensor's size does not fit in 64 bits.
    TooLarge,
    /// Two tensors would have this name.
    Collision(String),
}

/// The names of the tensors of dense blocks.
pub open spec fn is_dense(layers: Seq<LayerModel>, name: Seq<char>) -> bool {
    exists|i: int|
        0 <= i < layers.len() && ((#[trigger] layers[i]).gate == name || layers[i].up == name
            || layers[i].down == name)
}

/// A tensor that is copied as it is.
pub open spec fn copied(e: EntryModel, name: Seq<char>) -> OutputModel {
    OutputModel {
        name,
        dtype: e.dtype,
        shape: e.shape,
        nbytes: (e.end - e.start) as nat,
        payload: PayloadModel::Copy { source: name },
    }
}

/// Copies of the tensors with these names that belong to no dense block.
pub open spec fn copies<S: TensorSource>(
    src: &S,
    keys: Seq<Seq<char>>,
    layers: Seq<LayerModel>,
) -> Seq<OutputModel>
    decreases keys.len(),
{
    if keys.len() == 0 {
        Seq::empty()
    } else if is_dense(layers, keys.last()) {
        copies(src, keys.drop_last(), layers)
    } else {
        copies(src, keys.drop_last(), layers).push(
            copied(src.entry_at(keys.last())->0, keys.last()),
        )
    }
}

/// A tensor of zeros of a shared expert.
pub open spec fn zeros_of(l: LayerModel, name: Seq<char>, shape: Seq<u64>) -> OutputModel {
    OutputModel {
        name,
        dtype: l.dtype,
        shape,
        nbytes: l.hidden as nat * l.dtype.size_of(),
        payload: PayloadModel::Zeros,
    }
}

/// The tensors that take the place of a dense block: the experts' packed projections, the router,
/// and a shared expert of width one with its gate.
pub open spec fn made_of(l: LayerModel, experts: usize) -> Seq<OutputModel> {
    let w = l.expert_intermediate;
    let size = l.dtype.size_of();
    let h = l.hidden as u64;
    seq![
        OutputModel {
            name: l.prefix + ".experts.gate_up_proj"@,
            dtype: l.dtype,
            shape: seq![experts as u64, (2 * w) as u64, h],
            nbytes: experts as nat * (2 * w as nat) * l.hidden as nat * size,
            payload: PayloadModel::GateUp {
                gate: l.gate,
                up: l.up,
                experts,
                expert_intermediate: w,
                hidden: l.hidden,
            },
        },
        OutputModel {
            name: l.prefix + ".experts.down_proj"@,
            dtype: l.dtype,
            shape: seq![experts as u64, h, w as u64],
            nbytes: experts as nat * l.hidden as nat * w as nat * size,
            payload: PayloadModel::Down {
                source: l.down,
                experts,
                hidden: l.hidden,
                intermediate: l.intermediate,
                expert_intermediate: w,
            },
        },
        OutputModel {
            name: l.prefix + ".gate.weight"@,
            dtype: l.dtype,
            shape: seq![experts as u64, h],
            nbytes: experts as nat * l.hidden as nat * 1 * size,
            payload: PayloadModel::RandomRouter {
                seed: payload::seed_of(l.prefix),
                amplitude: ROUTER_AMPLITUDE_BITS,
            },
        },
        zeros_of(l, l.prefix + ".shared_expert.gate_proj.weight"@, seq![1u64, h]),
        zeros_of(l, l.prefix + ".shared_expert.up_proj.weight"@, seq![1u64, h]),
        zeros_of(l, l.prefix + ".shared_expert.down_proj.weight"@, seq![h, 1u64]),
        zeros_of(l, l.prefix + ".shared_expert_gate.weight"@, seq![1u64, h]),
    ]
}

/// The sizes of what takes the place of a dense block can be counted.
pub open spec fn layer_fits(l: LayerModel, experts: usize) -> bool {
    let size = l.dtype.size_of();
    &&& 2 * l.expert_intermediate <= u64::MAX
    &&& experts as nat * (2 * l.expert_intermediate as nat) * l.hidden as nat * size <= u64::MAX
    &&& experts as nat * l.hidden as nat * l.expert_intermediate as nat * size <= u64::MAX
    &&& experts as nat * l.hidden as nat * 1 * size <= u64::MAX
    &&& l.hidden as nat * size <= u64::MAX
}

/// What takes the place of all dense blocks.
pub open spec fn made(layers: Seq<LayerModel>, experts: usize) -> Seq<OutputModel>
    decreases layers.len(),
{
    if layers.len() == 0 {
        Seq::empty()
    } else {
        made(layers.drop_last(), experts) + made_of(layers.last(), experts)
    }
}

/// All tensors of the converted checkpoint, not yet in order.
pub open spec fn all_tensors<S: TensorSource>(
    src: &S,
    keys: Seq<Seq<char>>,
    layers: Seq<LayerModel>,
    experts: usize,
) -> Seq<OutputModel> {
    copies(src, keys, layers) + made(layers, experts)
}

/// Two of the tensors have this name.
pub open spec fn doubled(list: Seq<OutputModel>, name: Seq<char>) -> bool {
    exists|i: int, j: int|
        0 <= i < j < list.len() && (#[trigger] list[i]).name == name && (
        #[trigger] list[j]).name == name
}

/// The tensors by their names.
pub open spec fn by_name(list: Seq<OutputModel>) -> Map<Seq<char>, OutputModel>
    decreases list.len(),
{
    if list.len() == 0 {
        Map::empty()
    } else {
        by_name(list.drop_last()).insert(list.last().name, list.last())
    }
}

/// The tensors in the order of their names, every one of `list` and no other.
pub open spec fn in_plan(list: Seq<OutputModel>, v: Seq<OutputTensor>) -> bool {
    &&& names::in_order(Seq::new(v.len(), |i: int| v[i].name@))
    &&& forall|i: int|
        0 <= i < v.len() ==> by_name(list).dom().contains((#[trigger] v[i]).name@)
            && by_name(list)[v[i].name@] == v[i]@
    &&& forall|k: int| 0 <= k < list.len() ==> exists|i: int|
        0 <= i < v.len() && (#[trigger] v[i])@ == #[trigger] list[k]
}

/// The sizes of everything that takes the place of a block can be counted.
pub open spec fn all_fit(layers: Seq<LayerModel>, experts: usize) -> bool {
    forall|i: int| 0 <= i < layers.len() ==> layer_fits(#[trigger] layers[i], experts)
}

/// The tensors of the converted checkpoint in order, with no name twice.
pub open spec fn is_plan(
    src: &ShardedSafeTensors<'_>,
    layers: Seq<LayerModel>,
    experts: usize,
    v: Seq<OutputTensor>,
) -> bool {
    let list = all_tensors(src, src.map.keys(), layers, experts);
    &&& all_fit(layers, experts)
    &&& in_plan(list, v)
    &&& forall|name: Seq<char>| !#[trigger] doubled(list, name)
}

/// Why a checkpoint cannot be converted: a size cannot be counted, or two tensors would have one
/// name, the first such name in order.
pub open spec fn plan_fault(
    src: &ShardedSafeTensors<'_>,
    layers: Seq<LayerModel>,
    experts: usize,
    e: PlanError,
) -> bool {
    let list = all_tensors(src, src.map.keys(), layers, experts);
    match e {
        PlanError::TooLarge => !all_fit(layers, experts),
        PlanError::Collision(s) => all_fit(layers, experts) && doubled(list, s@) && forall|
            name: Seq<char>,
        | #[trigger]
            doubled(list, name) ==> !text::precedes(name, s@),
    }
}

/// Tensors that are collected, with the first name in order that came twice.
struct Collected {
    map: NameMap<OutputTensor>,
    clash: Option<String>,
}

/// The models of the tensors of a map.
spec fn output_models(m: Map<Seq<char>, OutputTensor>) -> Map<Seq<char>, OutputModel> {
    m.map_values(|t: OutputTensor| t@)
}

/// What has been collected are the tensors of `list`.
spec fn holds(c: Collected, list: Seq<OutputModel>) -> bool {
    &&& c.map.wf()
    &&& output_models(c.map@) == by_name(list)
    &&& forall|k: Seq<char>|
        #![trigger c.map@[k]]
        c.map@.dom().contains(k) ==> c.map@[k].name@ == k
    &&& match c.clash {
        None => forall|name: Seq<char>| !#[trigger] doubled(list, name),
        Some(s) => doubled(list, s@) && forall|name: Seq<char>| #[trigger]
            doubled(list, name) ==> !text::precedes(name, s@),
    }
}

/// The names in a map by name are the names of the list.
pub proof fn lemma_by_name(list: Seq<OutputModel>, name: Seq<char>)
    ensures
        by_name(list).dom().contains(name) <==> exists|i: int|
            0 <= i < list.len() && (#[trigger] list[i]).name == name,
        by_name(list).dom().contains(name) ==> by_name(list)[name].name == name,
    decreases list.len(),
{
    if list.len() > 0 {
        let before = list.drop_last();
        lemma_by_name(before, name);
        if by_name(list).dom().contains(name) {
            if list.last().name == name {
                assert(list[list.len() - 1].name == name);
            } else {
                let i = choose|i: int| 0 <= i < before.len() && (#[trigger] before[i]).name == name;
                assert(list[i] == before[i]);
            }
        }
        if exists|i: int| 0 <= i < list.len() && (#[trigger] list[i]).name == name {
            let i = choose|i: int| 0 <= i < list.len() && (#[trigger] list[i]).name == name;
            if i < list.len() - 1 {
                assert(before[i] == list[i]);
            }
        }
    }
}

/// Where no name comes twice, the map by name has every tensor of the list.
proof fn lemma_by_name_at(list: Seq<OutputModel>, k: int)
    requires
        0 <= k < list.len(),
        forall|name: Seq<char>| !#[trigger] doubled(list, name),
    ensures
        by_name(list).dom().contains(list[k].name),
        by_name(list)[list[k].name] == list[k],
    decreases list.len(),
{
    let before = list.drop_last();
    if k < list.len() - 1 {
        assert forall|name: Seq<char>| !#[trigger] doubled(before, name) by {
            if doubled(before, name) {
                let (i, j) = choose|i: int, j: int|
                    0 <= i < j < before.len() && (#[trigger] before[i]).name == name && (
                    #[trigger] before[j]).name == name;
                assert(list[i] == before[i] && list[j] == before[j]);
                assert(doubled(list, name));
            }
        }
        lemma_by_name_at(before, k);
        assert(before[k] == list[k]);
        if list.last().name == list[k].name {
            assert(list[list.len() - 1] == list.last());
            assert(doubled(list, list[k].name));
        }
    }
}

/// A name comes twice in a longer list where it did before, or where the new tensor has it too.
proof fn lemma_doubled_push(list: Seq<OutputModel>, t: OutputModel, name: Seq<char>)
    ensures
        doubled(list.push(t), name) <==> doubled(list, name) || (t.name == name && by_name(
            list,
        ).dom().contains(name)),
{
    let longer = list.push(t);
    lemma_by_name(list, name);
    if doubled(longer, name) {
        let (i, j) = choose|i: int, j: int|
            0 <= i < j < longer.len() && (#[trigger] longer[i]).name == name && (
            #[trigger] longer[j]).name == name;
        assert(list[i] == longer[i]);
        if j < list.len() {
            assert(list[j] == longer[j]);
        }
    }
    if doubled(list, name) {
        let (i, j) = choose|i: int, j: int|
            0 <= i < j < list.len() && (#[trigger] list[i]).name == name && (
            #[trigger] list[j]).name == name;
        assert(longer[i] == list[i] && longer[j] == list[j]);
    }
    if t.name == name && by_name(list).dom().contains(name) {
        let i = choose|i: int| 0 <= i < list.len() && (#[trigger] list[i]).name == name;
        assert(longer[i] == list[i]);
        assert(longer[list.len() as int] == t);
    }
}

impl Collected {
    /// Adds a tensor.
    fn add(&mut self, t: OutputTensor)
        requires
            old(self).map.wf(),
        ensures
            final(self).map.wf(),
            forall|list: Seq<OutputModel>| #[trigger]
                holds(*old(self), list) ==> holds(*final(self), list.push(t@)),
    {
        let ghost before = *self;
        let ghost model = t@;
        let name = t.name.clone();
        if self.map.contains(name.as_str()) {
            let first: bool = match &self.clash {
                None => true,
                Some(c) => text::is_before(name.as_str(), c.as_str()),
            };
            if first {
                self.clash = Some(name.clone());
            }
        }
        self.map.insert(name, t);
        proof {
            assert forall|list: Seq<OutputModel>| #[trigger] holds(before, list) implies holds(
                *self,
                list.push(model),
            ) by {
                let longer = list.push(model);
                assert(longer.drop_last() =~= list);
                assert(longer.last() == model);
                assert(output_models(self.map@) =~= by_name(longer));
                assert(before.map@.dom().contains(model.name) == output_models(
                    before.map@,
                ).dom().contains(model.name));
                assert forall|name: Seq<char>| #[trigger] doubled(longer, name) == (doubled(
                    list,
                    name,
                ) || (model.name == name && by_name(list).dom().contains(name))) by {
                    lemma_doubled_push(list, model, name);
                }
                if self.clash is Some {
                    let s = self.clash->0@;
                    assert(doubled(longer, s));
                    assert forall|name: Seq<char>| #[trigger] doubled(
                        longer,
                        name,
                    ) implies !text::precedes(name, s) by {
                        text::lemma_precedes_irreflexive(s);
                        if doubled(list, name) && before.clash is Some {
                            let c = before.clash->0@;
                            assert(!text::precedes(name, c));
                            if text::precedes(name, s) && s != c {
                                text::lemma_precedes_transitive(name, s, c);
                            }
                        }
                    }
                }
            }
        }
    }
}

/// Whether a name is that of a tensor of a dense block.
fn in_dense(layers: &[DenseLayer], name: &str) -> (r: bool)
    ensures
        r == is_dense(layers::layer_models(layers@), name@),
{
    let n: usize = layers.len();
    let mut i: usize = 0;
    while i < n
        invariant
            i <= n == layers@.len(),
            forall|j: int|
                0 <= j < i ==> (#[trigger] layers::layer_models(layers@)[j]).gate != name@ && layers::layer_models(
                    layers@,
                )[j].up != name@ && layers::layer_models(layers@)[j].down != name@,
        decreases n - i,
    {
        let l = &layers[i];
        assert(layers::layer_models(layers@)[i as int] == l@);
        if text::same(l.gate.as_str(), name) || text::same(l.up.as_str(), name) || text::same(
            l.down.as_str(),
            name,
        ) {
            return true;
        }
        i = i + 1;
    }
    false
}

/// The product of four factors, where it fits in 64 bits.
fn product(a: u64, b: u64, c: u64, d: u64) -> (r: Option<u64>)
    ensures
        match r {
            Some(p) => p == a as nat * b as nat * c as nat * d as nat,
            None => a as nat * b as nat * c as nat * d as nat > u64::MAX,
        },
{
    if a == 0 || b == 0 || c == 0 || d == 0 {
        assert(a as nat * b as nat * c as nat * d as nat == 0) by (nonlinear_arith)
            requires
                a == 0 || b == 0 || c == 0 || d == 0,
        ;
        return Some(0);
    }
    let ab: u64 = match a.checked_mul(b) {
        Some(x) => x,
        None => {
            assert(a as nat * b as nat * c as nat * d as nat >= a as nat * b as nat)
                by (nonlinear_arith)
                requires
                    c >= 1,
                    d >= 1,
            ;
            return None;
        },
    };
    let abc: u64 = match ab.checked_mul(c) {
        Some(x) => x,
        None => {
            assert(ab as nat * c as nat * d as nat >= ab as nat * c as nat) by (nonlinear_arith)
                requires
                    d >= 1,
            ;
            return None;
        },
    };
    abc.checked_mul(d)
}

/// `a` with `b` behind it.
fn join2(a: &str, b: &str) -> (r: String)
    ensures
        r@ == a@ + b@,
{
    let mut s: String = a.to_owned();
    s.append(b);
    s
}

/// A shape of two dimensions.
fn shape2(a: u64, b: u64) -> (r: Vec<u64>)
    ensures
        r@ == seq![a, b],
{
    let mut v: Vec<u64> = Vec::new();
    v.push(a);
    v.push(b);
    assert(v@ =~= seq![a, b]);
    v
}

/// A shape of three dimensions.
fn shape3(a: u64, b: u64, c: u64) -> (r: Vec<u64>)
    ensures
        r@ == seq![a, b, c],
{
    let mut v: Vec<u64> = Vec::new();
    v.push(a);
    v.push(b);
    v.push(c);
    assert(v@ =~= seq![a, b, c]);
    v
}

/// A tensor of zeros of a shared expert.
fn zeros(l: &DenseLayer, suffix: &str, shape: Vec<u64>) -> (r: OutputTensor)
    requires
        l.hidden as nat * l.dtype.size_of() <= u64::MAX,
    ensures
        r@ == zeros_of(l@, l.prefix@ + suffix@, shape@),
{
    let nbytes: u64 = l.hidden as u64 * l.dtype.size() as u64;
    OutputTensor {
        name: join2(l.prefix.as_str(), suffix),
        dtype: l.dtype,
        shape,
        nbytes,
        payload: Payload::Zeros,
    }
}

/// Adds what takes the place of a dense block; false, with nothing added, where its sizes cannot
/// be counted.
fn add_layer(c: &mut Collected, l: &DenseLayer, experts: usize) -> (ok: bool)
    requires
        old(c).map.wf(),
    ensures
        ok == layer_fits(l@, experts),
        final(c).map.wf(),
        ok ==> forall|list: Seq<OutputModel>| #[trigger]
            holds(*old(c), list) ==> holds(*final(c), list + made_of(l@, experts)),
{
    let size: u64 = l.dtype.size() as u64;
    let w: usize = l.expert_intermediate;
    let h: u64 = l.hidden as u64;
    if w as u64 > u64::MAX / 2 {
        return false;
    }
    let gate_up: u64 = match product(experts as u64, 2 * w as u64, h, size) {
        Some(x) => x,
        None => return false,
    };
    let down: u64 = match product(experts as u64, h, w as u64, size) {
        Some(x) => x,
        None => return false,
    };
    let router: u64 = match product(experts as u64, h, 1, size) {
        Some(x) => x,
        None => return false,
    };
    if h.checked_mul(size).is_none() {
        return false;
    }
    let prefix = l.prefix.as_str();
    let t0 = OutputTensor {
        name: join2(prefix, ".experts.gate_up_proj"),
        dtype: l.dtype,
        shape: shape3(experts as u64, 2 * w as u64, h),
        nbytes: gate_up,
        payload: Payload::GateUp {
            gate: l.gate.clone(),
            up: l.up.clone(),
            experts,
            expert_intermediate: w,
            hidden: l.hidden,
        },
    };
    let t1 = OutputTensor {
        name: join2(prefix, ".experts.down_proj"),
        dtype: l.dtype,
        shape: shape3(experts as u64, h, w as u64),
        nbytes: down,
        payload: Payload::Down {
            source: l.down.clone(),
            experts,
            hidden: l.hidden,
            intermediate: l.intermediate,
            expert_intermediate: w,
        },
    };
    let t2 = OutputTensor {
        name: join2(prefix, ".gate.weight"),
        dtype: l.dtype,
        shape: shape2(experts as u64, h),
        nbytes: router,
        payload: Payload::RandomRouter {
            seed: stable_seed(prefix),
            amplitude: ROUTER_AMPLITUDE_BITS,
        },
    };
    let t3 = zeros(l, ".shared_expert.gate_proj.weight", shape2(1, h));
    let t4 = zeros(l, ".shared_expert.up_proj.weight", shape2(1, h));
    let t5 = zeros(l, ".shared_expert.down_proj.weight", shape2(h, 1));
    let t6 = zeros(l, ".shared_expert_gate.weight", shape2(1, h));
    let ghost made = made_of(l@, experts);
    let ghost (m0, m1, m2, m3, m4, m5, m6) = (t0@, t1@, t2@, t3@, t4@, t5@, t6@);
    assert(made =~= seq![m0, m1, m2, m3, m4, m5, m6]);
    c.add(t0);
    c.add(t1);
    c.add(t2);
    c.add(t3);
    c.add(t4);
    c.add(t5);
    c.add(t6);
    proof {
        assert forall|list: Seq<OutputModel>| #[trigger] holds(*old(c), list) implies holds(
            *c,
            list + made,
        ) by {
            assert(list.push(m0).push(m1).push(m2).push(m3).push(m4).push(m5).push(m6) =~= list
                + made);
        }
    }
    true
}

/// The tensors of the converted checkpoint, in the order of their names: every tensor that belongs
/// to no dense block as it is, and what takes the place of each block. Where two of them would
/// have one name, the first such name in order is reported.
pub fn build_output_plan(src: &ShardedSafeTensors<'_>, layers: &[DenseLayer], experts: usize) -> (r:
    Result<Vec<OutputTensor>, PlanError>)
    requires
        src.wf(),
    ensures
        match r {
            Ok(v) => is_plan(src, layers::layer_models(layers@), experts, v@),
            Err(e) => plan_fault(src, layers::layer_models(layers@), experts, e),
        },
{
    let ghost lm = layers::layer_models(layers@);
    let ghost keys = src.map.keys();
    let mut c = Collected { map: NameMap::new(), clash: None };
    proof {
        assert(output_models(c.map@) =~= by_name(Seq::empty()));
        assert forall|name: Seq<char>| !#[trigger] doubled(Seq::empty(), name) by {}
        assert(holds(c, Seq::empty()));
    }
    let n: usize = src.map.len();
    let mut i: usize = 0;
    assert(keys.subrange(0, 0) =~= Seq::empty());
    while i < n
        invariant
            i <= n == src.map.items@.len(),
            src.wf(),
            lm == layers::layer_models(layers@),
            keys == src.map.keys(),
            holds(c, copies(src, keys.subrange(0, i as int), lm)),
        decreases n - i,
    {
        let ghost longer = keys.subrange(0, i + 1);
        assert(longer.drop_last() =~= keys.subrange(0, i as int));
        assert(longer.last() == keys[i as int]);
        let name = src.map.items[i].0.as_str();
        proof {
            src.map.lemma_at(i as int);
            assert(src.map@.dom().contains(name@));
        }
        if !in_dense(layers, name) {
            match src.entry(name) {
                Some(e) => {
                    let ghost had = copies(src, keys.subrange(0, i as int), lm);
                    proof {
                        lemma_entry_range(src, name@);
                    }
                    let t = copy_of(e, name);
                    assert(t@ == copied(src.entry_at(name@)->0, name@));
                    c.add(t);
                },
                None => {},
            }
        }
        i = i + 1;
    }
    assert(keys.subrange(0, n as int) =~= keys);
    let ghost copied_part = copies(src, keys, lm);
    let m: usize = layers.len();
    let mut j: usize = 0;
    assert(lm.subrange(0, 0) =~= Seq::empty());
    assert(copied_part + made(lm.subrange(0, 0), experts) =~= copied_part);
    while j < m
        invariant
            j <= m == layers@.len(),
            lm == layers::layer_models(layers@),
            forall|k: int| 0 <= k < j ==> layer_fits(#[trigger] lm[k], experts),
            holds(c, copied_part + made(lm.subrange(0, j as int), experts)),
        decreases m - j,
    {
        let ghost part = lm.subrange(0, j as int);
        let ghost longer = lm.subrange(0, j + 1);
        assert(longer.drop_last() =~= part);
        assert(longer.last() == lm[j as int]);
        assert(lm[j as int] == layers@[j as int]@);
        if !add_layer(&mut c, &layers[j], experts) {
            return Err(PlanError::TooLarge);
        }
        assert(copied_part + made(part, experts) + made_of(lm[j as int], experts) =~= copied_part
            + made(longer, experts));
        j = j + 1;
    }
    assert(lm.subrange(0, m as int) =~= lm);
    let ghost list = all_tensors(src, keys, lm, experts);
    if let Some(s) = c.clash {
        return Err(PlanError::Collision(s));
    }
    let ghost map = c.map;
    let v = c.map.into_values();
    proof {
        lemma_plan(list, map, v@);
    }
    Ok(v)
}

/// The values of a map by name are a plan.
proof fn lemma_plan(list: Seq<OutputModel>, map: NameMap<OutputTensor>, v: Seq<OutputTensor>)
    requires
        map.wf(),
        output_models(map@) == by_name(list),
        forall|k: Seq<char>|
            #![trigger map@[k]]
            map@.dom().contains(k) ==> map@[k].name@ == k,
        forall|name: Seq<char>| !#[trigger] doubled(list, name),
        v.len() == map.items@.len(),
        forall|i: int| 0 <= i < v.len() ==> #[trigger] v[i] == map.items@[i].1,
    ensures
        in_plan(list, v),
{
    let names = Seq::new(v.len(), |i: int| v[i].name@);
    assert forall|i: int| 0 <= i < v.len() implies (#[trigger] v[i]).name@ == map.keys()[i]
        && map@.dom().contains(v[i].name@) && map@[v[i].name@] == v[i] by {
        map.lemma_at(i);
        assert(map@[map.items@[i].0@].name@ == map.items@[i].0@);
    }
    assert(names =~= map.keys());
    assert forall|i: int| 0 <= i < v.len() implies by_name(list).dom().contains(
        (#[trigger] v[i]).name@,
    ) && by_name(list)[v[i].name@] == v[i]@ by {
        assert(output_models(map@).dom().contains(v[i].name@));
    }
    assert forall|k: int| 0 <= k < list.len() implies exists|i: int|
        0 <= i < v.len() && (#[trigger] v[i])@ == #[trigger] list[k] by {
        lemma_by_name_at(list, k);
        assert(map@.dom().contains(list[k].name));
        let i = map.lemma_found(list[k].name);
        assert(v[i].name@ == list[k].name);
        assert(by_name(list)[v[i].name@] == v[i]@);
    }
}

/// The range of an entry of a well-formed source is not reversed.
pub proof fn lemma_entry_range(src: &ShardedSafeTensors<'_>, name: Seq<char>)
    requires
        src.wf(),
        src.map@.dom().contains(name),
    ensures
        src.entry_at(name) is Some,
        src.entry_at(name)->0.start <= src.entry_at(name)->0.end,
{
    crate::safetensors::sharded::lemma_last_holder(src.shards@, name);
    let i = crate::safetensors::sharded::last_holder(src.shards@, name)->0;
    assert(src.shards@[i].wf());
    assert(src.shards@[i].entries@[name].name@ == name);
}

/// A tensor that is copied as it is.
fn copy_of(e: &StEntry, name: &str) -> (r: OutputTensor)
    requires
        e.start <= e.end,
    ensures
        r@ == copied(e@, name@),
{
    OutputTensor {
        name: name.to_owned(),
        dtype: e.dtype,
        shape: vstd::slice::slice_to_vec(e.shape.as_slice()),
        nbytes: (e.end - e.start) as u64,
        payload: Payload::Copy { source: name.to_owned() },
    }
}

/// The copy of a tensor that belongs to no dense block is among the copies.
proof fn lemma_copies_hold<S: TensorSource>(
    src: &S,
    keys: Seq<Seq<char>>,
    layers: Seq<LayerModel>,
    k: int,
)
    requires
        0 <= k < keys.len(),
        !is_dense(layers, keys[k]),
    ensures
        copies(src, keys, layers).contains(copied(src.entry_at(keys[k])->0, keys[k])),
    decreases keys.len(),
{
    let before = copies(src, keys.drop_last(), layers);
    let all = copies(src, keys, layers);
    let c = copied(src.entry_at(keys[k])->0, keys[k]);
    if k < keys.len() - 1 {
        lemma_copies_hold(src, keys.drop_last(), layers, k);
        let i = choose|i: int| 0 <= i < before.len() && before[i] == c;
        assert(all[i] == c);
    } else {
        assert(all[all.len() - 1] == c);
    }
}

/// Every tensor that belongs to no dense block is copied byte for byte, with its type and its
/// shape.
pub proof fn law_other_tensors_are_copied(
    src: &ShardedSafeTensors<'_>,
    layers: Seq<LayerModel>,
    experts: usize,
    v: Seq<OutputTensor>,
    k: int,
)
    requires
        is_plan(src, layers, experts, v),
        0 <= k < src.map.keys().len(),
        !is_dense(layers, src.map.keys()[k]),
    ensures
        exists|i: int|
            0 <= i < v.len() && (#[trigger] v[i])@ == copied(
                src.entry_at(src.map.keys()[k])->0,
                src.map.keys()[k],
            ),
{
    let keys = src.map.keys();
    let list = all_tensors(src, keys, layers, experts);
    let c = copied(src.entry_at(keys[k])->0, keys[k]);
    lemma_copies_hold(src, keys, layers, k);
    let i = choose|i: int| 0 <= i < copies(src, keys, layers).len() && copies(src, keys, layers)[i] == c;
    assert(list[i] == c);
}

/// The experts of a block have together as many bytes of weights as the dense block.
pub proof fn law_weights_are_preserved(l: LayerModel, experts: usize)
    requires
        l.expert_intermediate * experts == l.intermediate,
    ensures
        made_of(l, experts)[0].nbytes + made_of(l, experts)[1].nbytes == 3 * (l.intermediate as nat * (
        l.hidden as nat * l.dtype.size_of())),
{
    let w = l.expert_intermediate as nat;
    let h = l.hidden as nat;
    let e = experts as nat;
    let size = l.dtype.size_of();
    assert(e * (2 * w) * h * size == 2 * ((w * e) * (h * size))) by (nonlinear_arith);
    assert(e * h * w * size == (w * e) * (h * size)) by (nonlinear_arith);
}

} // verus!
