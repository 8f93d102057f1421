//! The dense feed-forward blocks of a checkpoint.
use vstd::prelude::*;
use crate::moefy::config::ModelSizes;
use crate::safetensors::load::TensorSource;
use crate::safetensors::StDtype;
use crate::text;

verus! {

/// A dense feed-forward block: the names of its tensors, their type and their sizes.
#[derive(Debug)]
pub struct DenseLayer {
    pub prefix: String,
    pub gate: String,
    pub up: String,
    pub down: String,
    pub dtype: StDtype,
    pub hidden: usize,
    pub intermediate: usize,
    pub expert_intermediate: usize,
}

/// What a [`DenseLayer`] stands for.
pub struct LayerModel {
    pub prefix: Seq<char>,
    pub gate: Seq<char>,
    pub up: Seq<char>,
    pub down: Seq<char>,
    pub dtype: StDtype,
    pub hidden: usize,
    pub intermediate: usize,
    pub expert_intermediate: usize,
}

impl View for DenseLayer {
    type V = LayerModel;

    open spec fn view(&self) -> LayerModel {
        LayerModel {
            prefix: self.prefix@,
            gate: self.gate@,
            up: self.up@,
            down: self.down@,
            dtype: self.dtype,
            hidden: self.hidden,
            intermediate: self.intermediate,
            expert_intermediate: self.expert_intermediate,
        }
    }
}

/// What is wrong with a block.
#[derive(Debug, Clone, Copy, PartialEq, Eq, Structural)]
pub enum LayerErrorKind {
    MissingTensor,
    /// The three tensors are of different types.
    MixedDtypes,
    /// The tensors hold no plain floats of 32 or 16 bits.
    UnsupportedDtype(StDtype),
    WrongShape,
}

/// What is wrong with a block, and with which tensor or block.
#[derive(Debug)]
pub struct LayerError {
    pub name: String,
    pub kind: LayerErrorKind,
}

/// The prefix of the `i`-th block: first those of the text model, then those of the heads that
/// predict further tokens.
pub open spec fn layer_prefix(i: nat, n_layers: nat) -> Seq<char> {
    if i < n_layers {
        "model.language_model.layers."@ + text::decimal(i) + ".mlp"@
    } else {
        "mtp.layers."@ + text::decimal((i - n_layers) as nat) + ".mlp"@
    }
}

/// Types that a dense block may have.
pub open spec fn plain_float(d: StDtype) -> bool {
    d == StDtype::BF16 || d == StDtype::F16 || d == StDtype::F32
}

/// What is wrong with the block under this prefix.
pub open spec fn layer_fault<S: TensorSource>(
    src: &S,
    prefix: Seq<char>,
    hidden: usize,
    intermediate: usize,
) -> Option<(Seq<char>, LayerErrorKind)> {
    let (gate, up, down) = (
        prefix + ".gate_proj.weight"@,
        prefix + ".up_proj.weight"@,
        prefix + ".down_proj.weight"@,
    );
    match (src.entry_at(gate), src.entry_at(up), src.entry_at(down)) {
        (None, _, _) => Some((gate, LayerErrorKind::MissingTensor)),
        (Some(_), None, _) => Some((up, LayerErrorKind::MissingTensor)),
        (Some(_), Some(_), None) => Some((down, LayerErrorKind::MissingTensor)),
        (Some(g), Some(u), Some(d)) => if g.dtype != u.dtype || g.dtype != d.dtype {
            Some((prefix, LayerErrorKind::MixedDtypes))
        } else if !plain_float(g.dtype) {
            Some((prefix, LayerErrorKind::UnsupportedDtype(g.dtype)))
        } else if g.shape != seq![intermediate as u64, hidden as u64] {
            Some((gate, LayerErrorKind::WrongShape))
        } else if u.shape != seq![intermediate as u64, hidden as u64] {
            Some((up, LayerErrorKind::WrongShape))
        } else if d.shape != seq![hidden as u64, intermediate as u64] {
            Some((down, LayerErrorKind::WrongShape))
        } else {
            None
        },
    }
}

/// The block under this prefix, in which nothing is wrong.
pub open spec fn layer_at<S: TensorSource>(
    src: &S,
    prefix: Seq<char>,
    hidden: usize,
    intermediate: usize,
    experts: usize,
) -> LayerModel {
    LayerModel {
        prefix,
        gate: prefix + ".gate_proj.weight"@,
        up: prefix + ".up_proj.weight"@,
        down: prefix + ".down_proj.weight"@,
        dtype: src.entry_at(prefix + ".gate_proj.weight"@)->0.dtype,
        hidden,
        intermediate,
        expert_intermediate: (intermediate / experts) as usize,
    }
}

/// What is wrong with the `i`-th block.
pub open spec fn fault_at<S: TensorSource>(src: &S, sizes: ModelSizes, i: nat) -> Option<
    (Seq<char>, LayerErrorKind),
> {
    layer_fault(
        src,
        layer_prefix(i, sizes.n_layers as nat),
        sizes.hidden,
        sizes.intermediate,
    )
}

/// Nothing is wrong with any block.
pub open spec fn no_fault<S: TensorSource>(src: &S, sizes: ModelSizes) -> bool {
    forall|i: nat|
        i < sizes.n_layers + sizes.mtp_layers ==> #[trigger] fault_at(src, sizes, i) is None
}

/// The first fault in a block.
pub open spec fn first_fault<S: TensorSource>(
    src: &S,
    sizes: ModelSizes,
    name: Seq<char>,
    kind: LayerErrorKind,
) -> bool {
    exists|i: nat|
        {
            &&& i < sizes.n_layers + sizes.mtp_layers
            &&& #[trigger] fault_at(src, sizes, i) == Some((name, kind))
            &&& forall|j: nat| j < i ==> #[trigger] fault_at(src, sizes, j) is None
        }
}

/// All blocks, where nothing is wrong with any.
pub open spec fn layer_list<S: TensorSource>(
    src: &S,
    sizes: ModelSizes,
    experts: usize,
) -> Seq<LayerModel> {
    Seq::new(
        (sizes.n_layers + sizes.mtp_layers) as nat,
        |i: int|
            layer_at(
                src,
                layer_prefix(i as nat, sizes.n_layers as nat),
                sizes.hidden,
                sizes.intermediate,
                experts,
            ),
    )
}

/// What dense blocks stand for.
pub open spec fn layer_models(layers: Seq<DenseLayer>) -> Seq<LayerModel> {
    Seq::new(layers.len(), |i: int| layers[i]@)
}

/// `a`, `b` and `c` one behind the other.
fn join3(a: &str, b: &str, c: &str) -> (r: String)
    ensures
        r@ == a@ + b@ + c@,
{
    let mut s: String = a.to_owned();
    s.append(b);
    s.append(c);
    s
}

/// Whether a shape has the two dimensions `a` and `b`.
pub fn check_shape(actual: &[u64], a: usize, b: usize) -> (r: bool)
    ensures
        r == (actual@ == seq![a as u64, b as u64]),
{
    if actual.len() != 2 {
        return false;
    }
    if actual[0] == a as u64 && actual[1] == b as u64 {
        assert(actual@ =~= seq![a as u64, b as u64]);
        true
    } else {
        assert(actual@[0] != seq![a as u64, b as u64][0] || actual@[1] != seq![
            a as u64,
            b as u64,
        ][1]);
        false
    }
}

/// The block under this prefix.
fn find_layer<S: TensorSource>(
    src: &S,
    prefix: String,
    hidden: usize,
    intermediate: usize,
    experts: usize,
) -> (r: Result<DenseLayer, LayerError>)
    requires
        src.ready(),
        experts > 0 || layer_fault(src, prefix@, hidden, intermediate) is Some,
    ensures
        match layer_fault(src, prefix@, hidden, intermediate) {
            Some((name, kind)) => r matches Err(e) && e.name@ == name && e.kind == kind,
            None => r matches Ok(l) && l@ == layer_at(src, prefix@, hidden, intermediate, experts),
        },
{
    let gate = join3(prefix.as_str(), ".gate_proj.weight", "");
    let up = join3(prefix.as_str(), ".up_proj.weight", "");
    let down = join3(prefix.as_str(), ".down_proj.weight", "");
    proof {
        reveal_strlit("");
        assert(gate@ =~= prefix@ + ".gate_proj.weight"@);
        assert(up@ =~= prefix@ + ".up_proj.weight"@);
        assert(down@ =~= prefix@ + ".down_proj.weight"@);
    }
    let g = match src.st_entry(gate.as_str()) {
        Some(e) => e,
        None => return Err(LayerError { name: gate, kind: LayerErrorKind::MissingTensor }),
    };
    let u = match src.st_entry(up.as_str()) {
        Some(e) => e,
        None => return Err(LayerError { name: up, kind: LayerErrorKind::MissingTensor }),
    };
    let d = match src.st_entry(down.as_str()) {
        Some(e) => e,
        None => return Err(LayerError { name: down, kind: LayerErrorKind::MissingTensor }),
    };
    let dtype = g.dtype;
    if dtype != u.dtype || dtype != d.dtype {
        return Err(LayerError { name: prefix, kind: LayerErrorKind::MixedDtypes });
    }
    if dtype != StDtype::BF16 && dtype != StDtype::F16 && dtype != StDtype::F32 {
        return Err(LayerError { name: prefix, kind: LayerErrorKind::UnsupportedDtype(dtype) });
    }
    if !check_shape(g.shape.as_slice(), intermediate, hidden) {
        return Err(LayerError { name: gate, kind: LayerErrorKind::WrongShape });
    }
    if !check_shape(u.shape.as_slice(), intermediate, hidden) {
        return Err(LayerError { name: up, kind: LayerErrorKind::WrongShape });
    }
    if !check_shape(d.shape.as_slice(), hidden, intermediate) {
        return Err(LayerError { name: down, kind: LayerErrorKind::WrongShape });
    }
    Ok(
        DenseLayer {
            prefix,
            gate,
            up,
            down,
            dtype,
            hidden,
            intermediate,
            expert_intermediate: intermediate / experts,
        },
    )
}

/// The width of a block is divided by the number of experts, which is not zero, or it comes to no
/// division: there are no blocks, or something is wrong with the first.
pub open spec fn can_divide<S: TensorSource>(src: &S, sizes: ModelSizes, experts: usize) -> bool {
    experts > 0 || sizes.n_layers + sizes.mtp_layers == 0 || fault_at(src, sizes, 0) is Some
}

/// All dense blocks of a model, or the first fault in one of them.
pub fn discover_layers<S: TensorSource>(src: &S, sizes: ModelSizes, experts: usize) -> (r: Result<
    Vec<DenseLayer>,
    LayerError,
>)
    requires
        src.ready(),
        can_divide(src, sizes, experts),
    ensures
        match r {
            Ok(v) => no_fault(src, sizes) && layer_models(v@) == layer_list(src, sizes, experts),
            Err(e) => first_fault(src, sizes, e.name@, e.kind),
        },
{
    let mut layers: Vec<DenseLayer> = Vec::new();
    let mut i: usize = 0;
    while i < sizes.n_layers
        invariant
            src.ready(),
            can_divide(src, sizes, experts),
            i <= sizes.n_layers,
            layers@.len() == i,
            forall|k: nat|
                k < i ==> #[trigger] fault_at(src, sizes, k) is None,
            forall|k: int|
                0 <= k < i ==> (#[trigger] layers@[k])@ == layer_at(
                    src,
                    layer_prefix(k as nat, sizes.n_layers as nat),
                    sizes.hidden,
                    sizes.intermediate,
                    experts,
                ),
        decreases sizes.n_layers - i,
    {
        let prefix = join3(
            "model.language_model.layers.",
            text::decimal_of(i as u64).as_str(),
            ".mlp",
        );
        assert(prefix@ == layer_prefix(i as nat, sizes.n_layers as nat));
        assert(i > 0 ==> fault_at(src, sizes, 0) is None);
        assert(i == 0 ==> fault_at(src, sizes, i as nat) == fault_at(src, sizes, 0));
        match find_layer(src, prefix, sizes.hidden, sizes.intermediate, experts) {
            Ok(l) => {
                layers.push(l);
            },
            Err(e) => {
                assert(fault_at(src, sizes, i as nat) == Some((e.name@, e.kind)));
                return Err(e);
            },
        }
        i = i + 1;
    }
    let mut j: usize = 0;
    while j < sizes.mtp_layers
        invariant
            src.ready(),
            can_divide(src, sizes, experts),
            j <= sizes.mtp_layers,
            layers@.len() == sizes.n_layers + j,
            forall|k: nat|
                k < sizes.n_layers + j ==> #[trigger] fault_at(src, sizes, k) is None,
            forall|k: int|
                0 <= k < sizes.n_layers + j ==> (#[trigger] layers@[k])@ == layer_at(
                    src,
                    layer_prefix(k as nat, sizes.n_layers as nat),
                    sizes.hidden,
                    sizes.intermediate,
                    experts,
                ),
        decreases sizes.mtp_layers - j,
    {
        let prefix = join3("mtp.layers.", text::decimal_of(j as u64).as_str(), ".mlp");
        let ghost at = (sizes.n_layers + j) as nat;
        assert(prefix@ == layer_prefix(at, sizes.n_layers as nat));
        assert(at > 0 ==> fault_at(src, sizes, 0) is None);
        assert(at == 0 ==> fault_at(src, sizes, at) == fault_at(src, sizes, 0));
        match find_layer(src, prefix, sizes.hidden, sizes.intermediate, experts) {
            Ok(l) => {
                layers.push(l);
            },
            Err(e) => {
                assert(fault_at(src, sizes, at) == Some((e.name@, e.kind)));
                return Err(e);
            },
        }
        j = j + 1;
    }
    assert(layer_models(layers@) =~= layer_list(src, sizes, experts));
    Ok(layers)
}

} // verus!
