//! The configuration of the converted model.
use vstd::prelude::*;
use crate::json;
use crate::json::{object_of, open_object, put, text_value, Json, JsonModel};
use crate::names::NameMap;
use crate::text;

verus! {

/// The double-precision bits of one thousandth, the weight of the router's auxiliary loss.
pub const ROUTER_AUX_LOSS_BITS: u64 = 0x3f50_624d_d2f1_a9fc;

/// A configuration that cannot be converted.
#[derive(Debug, Clone, Copy, PartialEq, Eq, Structural)]
pub enum ConfigError {
    /// The root is no object.
    NotAnObject,
    /// The model is of another type than `qwen3_5`.
    WrongModelType,
    /// `text_config` is missing or no object.
    MissingTextConfig,
    /// The text model is of another type than `qwen3_5_text`.
    WrongTextType,
    MissingLayerCount,
    MissingHiddenSize,
    MissingIntermediateSize,
    /// The dense width cannot be shared out evenly.
    NotDivisible { intermediate: usize, experts: usize },
}

/// The sizes that a configuration states.
#[derive(Debug, Clone, Copy, PartialEq, Eq, Structural)]
pub struct ModelSizes {
    pub n_layers: usize,
    pub mtp_layers: usize,
    pub hidden: usize,
    pub intermediate: usize,
}

/// A converted configuration and the sizes of the dense model.
#[derive(Debug)]
pub struct ConvertedConfig {
    pub config: Json,
    pub sizes: ModelSizes,
}

/// The number under a key, where it fits in a `usize`.
pub open spec fn usize_at(v: JsonModel, key: Seq<char>) -> Option<usize> {
    match v.uint_at(key) {
        Some(n) => if n <= usize::MAX {
            Some(n as usize)
        } else {
            None
        },
        None => None,
    }
}

/// The sizes of a dense model whose width can be shared out among `experts` experts, or what is
/// wrong with its configuration.
pub open spec fn dense_sizes(config: JsonModel, experts: usize) -> Result<ModelSizes, ConfigError> {
    if !(config is Object) {
        Err(ConfigError::NotAnObject)
    } else if config.text_at("model_type"@) != Some("qwen3_5"@) {
        Err(ConfigError::WrongModelType)
    } else {
        match config.get("text_config"@) {
            Some(JsonModel::Object(pairs)) => {
                let t = JsonModel::Object(pairs);
                if t.text_at("model_type"@) != Some("qwen3_5_text"@) {
                    Err(ConfigError::WrongTextType)
                } else {
                    match (
                        usize_at(t, "num_hidden_layers"@),
                        usize_at(t, "hidden_size"@),
                        usize_at(t, "intermediate_size"@),
                    ) {
                        (None, _, _) => Err(ConfigError::MissingLayerCount),
                        (Some(_), None, _) => Err(ConfigError::MissingHiddenSize),
                        (Some(_), Some(_), None) => Err(ConfigError::MissingIntermediateSize),
                        (Some(n_layers), Some(hidden), Some(intermediate)) => if intermediate
                            % experts != 0 {
                            Err(ConfigError::NotDivisible { intermediate, experts })
                        } else {
                            Ok(
                                ModelSizes {
                                    n_layers,
                                    mtp_layers: match usize_at(t, "mtp_num_hidden_layers"@) {
                                        Some(n) => n,
                                        None => 0,
                                    },
                                    hidden,
                                    intermediate,
                                },
                            )
                        },
                    }
                }
            },
            _ => Err(ConfigError::MissingTextConfig),
        }
    }
}

/// The members of the text model's configuration after the conversion.
pub open spec fn text_members(
    old_text: Map<Seq<char>, JsonModel>,
    intermediate: usize,
    experts: usize,
    top_k: usize,
) -> Map<Seq<char>, JsonModel> {
    old_text.insert("model_type"@, JsonModel::Text("qwen3_5_moe_text"@)).remove(
        "intermediate_size"@,
    ).insert(
        "moe_intermediate_size"@,
        JsonModel::UInt((intermediate / experts) as u64),
    ).insert("shared_expert_intermediate_size"@, JsonModel::UInt(1)).insert(
        "num_experts"@,
        JsonModel::UInt(experts as u64),
    ).insert("num_experts_per_tok"@, JsonModel::UInt(top_k as u64)).insert(
        "output_router_logits"@,
        JsonModel::Bool(true),
    ).insert("router_aux_loss_coef"@, JsonModel::Float(ROUTER_AUX_LOSS_BITS))
}

/// The members of the whole configuration after the conversion.
pub open spec fn root_members(
    old_root: Map<Seq<char>, JsonModel>,
    new_text: JsonModel,
) -> Map<Seq<char>, JsonModel> {
    old_root.insert(
        "architectures"@,
        JsonModel::List(seq![JsonModel::Text("Qwen3_5MoeForConditionalGeneration"@)]),
    ).insert("model_type"@, JsonModel::Text("qwen3_5_moe"@)).insert("text_config"@, new_text)
}

/// `new` is the converted configuration: the members named here are set, the dense width is gone,
/// and everything else is as it was.
pub open spec fn is_converted(
    old_config: JsonModel,
    sizes: ModelSizes,
    experts: usize,
    top_k: usize,
    new: JsonModel,
) -> bool {
    let old_text = old_config.get("text_config"@)->0;
    &&& new is Object
    &&& new.get("text_config"@) matches Some(new_text) && {
        &&& new_text is Object
        &&& json::members(new_text) == text_members(
            json::members(old_text),
            sizes.intermediate,
            experts,
            top_k,
        )
        &&& json::members(new) == root_members(json::members(old_config), new_text)
    }
}

/// The number under a key, where it fits in a `usize`.
fn get_usize(v: &Json, key: &str) -> (r: Option<usize>)
    ensures
        r == usize_at(v@, key@),
{
    match v.u64_at(key) {
        Some(n) => if n as u128 <= usize::MAX as u128 {
            Some(n as usize)
        } else {
            None
        },
        None => None,
    }
}

/// Whether the text under a key is `want`.
fn has_text(v: &Json, key: &str, want: &str) -> (r: bool)
    ensures
        r == (v@.text_at(key@) == Some(want@)),
{
    match v.str_at(key) {
        Some(s) => text::same(s, want),
        None => false,
    }
}

/// Takes a member out.
fn unset(m: &mut NameMap<Json>, key: &str)
    requires
        old(m).wf(),
    ensures
        final(m).wf(),
        json::models(final(m)@) == json::models(old(m)@).remove(key@),
{
    let ghost before = m@;
    m.remove(key);
    assert(json::models(m@) =~= json::models(before).remove(key@));
}

/// A list of one JSON string.
fn list_of_one(s: &str) -> (r: Json)
    ensures
        r@ == JsonModel::List(seq![JsonModel::Text(s@)]),
{
    let mut items: Vec<Json> = Vec::new();
    items.push(text_value(s));
    proof {
        json::lemma_list_model(items@);
        assert(json::list_model(items@) =~= seq![JsonModel::Text(s@)]);
    }
    Json::List(items)
}

/// Reads the sizes of the dense model. Where its width is divided, the number of experts is not
/// zero.
pub fn read_sizes(config: &Json, experts: usize) -> (r: Result<ModelSizes, ConfigError>)
    requires
        experts > 0 || dense_sizes(config@, 1) is Err,
    ensures
        r == dense_sizes(config@, experts),
{
    match config {
        Json::Object(_) => {},
        _ => return Err(ConfigError::NotAnObject),
    }
    if !has_text(config, "model_type", "qwen3_5") {
        return Err(ConfigError::WrongModelType);
    }
    let t = match config.get("text_config") {
        Some(t) => t,
        None => return Err(ConfigError::MissingTextConfig),
    };
    match t {
        Json::Object(_) => {},
        _ => return Err(ConfigError::MissingTextConfig),
    }
    if !has_text(t, "model_type", "qwen3_5_text") {
        return Err(ConfigError::WrongTextType);
    }
    let n_layers: usize = match get_usize(t, "num_hidden_layers") {
        Some(n) => n,
        None => return Err(ConfigError::MissingLayerCount),
    };
    let mtp_layers: usize = match get_usize(t, "mtp_num_hidden_layers") {
        Some(n) => n,
        None => 0,
    };
    let hidden: usize = match get_usize(t, "hidden_size") {
        Some(n) => n,
        None => return Err(ConfigError::MissingHiddenSize),
    };
    let intermediate: usize = match get_usize(t, "intermediate_size") {
        Some(n) => n,
        None => return Err(ConfigError::MissingIntermediateSize),
    };
    if intermediate % experts != 0 {
        return Err(ConfigError::NotDivisible { intermediate, experts });
    }
    Ok(ModelSizes { n_layers, mtp_layers, hidden, intermediate })
}

/// Converts the configuration of a dense model to one of a model with `experts` experts, `top_k`
/// of them for each token.
pub fn convert_config(config: &Json, experts: usize, top_k: usize) -> (r: Result<
    ConvertedConfig,
    ConfigError,
>)
    requires
        experts > 0 || dense_sizes(config@, 1) is Err,
    ensures
        match dense_sizes(config@, experts) {
            Err(e) => r matches Err(x) && x == e,
            Ok(sizes) => r matches Ok(c) && c.sizes == sizes && is_converted(
                config@,
                sizes,
                experts,
                top_k,
                c.config@,
            ),
        },
{
    let sizes = match read_sizes(config, experts) {
        Ok(s) => s,
        Err(e) => return Err(e),
    };
    let pairs = match config {
        Json::Object(p) => p,
        _ => return Err(ConfigError::NotAnObject),
    };
    let inner = match config.get("text_config") {
        Some(Json::Object(p)) => p,
        _ => return Err(ConfigError::MissingTextConfig),
    };
    let mut t = open_object(inner.as_slice());
    put(&mut t, "model_type", text_value("qwen3_5_moe_text"));
    unset(&mut t, "intermediate_size");
    put(&mut t, "moe_intermediate_size", Json::UInt((sizes.intermediate / experts) as u64));
    put(&mut t, "shared_expert_intermediate_size", Json::UInt(1));
    put(&mut t, "num_experts", Json::UInt(experts as u64));
    put(&mut t, "num_experts_per_tok", Json::UInt(top_k as u64));
    put(&mut t, "output_router_logits", Json::Bool(true));
    put(&mut t, "router_aux_loss_coef", Json::Float(ROUTER_AUX_LOSS_BITS));
    let new_text = object_of(t);
    let ghost text_model = new_text@;
    let mut root = open_object(pairs.as_slice());
    put(&mut root, "architectures", list_of_one("Qwen3_5MoeForConditionalGeneration"));
    put(&mut root, "model_type", text_value("qwen3_5_moe"));
    put(&mut root, "text_config", new_text);
    let new = object_of(root);
    proof {
        assert(json::members(new@) == root_members(json::members(config@), text_model));
        assert(json::members(new@).dom().contains("text_config"@));
        assert(json::members(new@)["text_config"@] == text_model);
    }
    Ok(ConvertedConfig { config: new, sizes })
}

} // verus!
