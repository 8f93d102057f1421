//! What a conversion promises of its configuration and its options.
use vstd::prelude::*;
use crate::json;
use crate::json::{Json, JsonModel};
use crate::moefy::config::{convert_config, read_sizes, ConfigError, ConvertedConfig, ModelSizes};
use crate::moefy::{check_options, MoefyOptions, OptionsError};

verus! {

/// The members of an object are what its keys lead to.
proof fn lemma_members(v: JsonModel, m: Map<Seq<char>, JsonModel>, key: Seq<char>)
    requires
        json::members(v) == m,
    ensures
        v.get(key) == if m.dom().contains(key) {
            Some(m[key])
        } else {
            None
        },
{
    assert(json::members(v).dom().contains(key) == (v.get(key) is Some));
    if v.get(key) is Some {
        assert(json::members(v)[key] == v.get(key)->0);
    }
}

/// The keys that a conversion sets differ from each other.
proof fn lemma_keys_differ()
    ensures
        "model_type"@.len() == 10,
        "intermediate_size"@.len() == 17,
        "moe_intermediate_size"@.len() == 21,
        "shared_expert_intermediate_size"@.len() == 31,
        "num_experts"@.len() == 11,
        "num_experts_per_tok"@.len() == 19,
        "output_router_logits"@.len() == 20,
        "output_router_logits"@[0] == 'o',
        "router_aux_loss_coef"@.len() == 20,
        "router_aux_loss_coef"@[0] == 'r',
        "architectures"@.len() == 13,
        "text_config"@.len() == 11,
{
    reveal_strlit("model_type");
    reveal_strlit("intermediate_size");
    reveal_strlit("moe_intermediate_size");
    reveal_strlit("shared_expert_intermediate_size");
    reveal_strlit("num_experts");
    reveal_strlit("num_experts_per_tok");
    reveal_strlit("output_router_logits");
    reveal_strlit("router_aux_loss_coef");
    reveal_strlit("architectures");
    reveal_strlit("text_config");
}

/// A converted configuration routes every token through the `top_k` experts that were asked for,
/// out of the `experts` that were asked for, which share out the dense width evenly and without
/// rest. It names the types of the new model, has no dense width any more, and says of everything
/// else what the old one says.
pub proof fn law_converted_config(
    config: &Json,
    experts: usize,
    top_k: usize,
    r: Result<ConvertedConfig, ConfigError>,
)
    requires
        experts > 0,
        call_ensures(convert_config, (config, experts, top_k), r),
        r is Ok,
    ensures
        ({
            let old_text = config@.get("text_config"@)->0;
            let new = r->Ok_0.config@;
            let new_text = new.get("text_config"@)->0;
            let width = r->Ok_0.sizes.intermediate;
            &&& new.get("text_config"@) is Some
            &&& new_text.get("num_experts_per_tok"@) == Some(JsonModel::UInt(top_k as u64))
            &&& new_text.get("num_experts"@) == Some(JsonModel::UInt(experts as u64))
            &&& old_text.get("intermediate_size"@) == Some(JsonModel::UInt(width as u64))
            &&& match new_text.get("moe_intermediate_size"@) {
                Some(JsonModel::UInt(n)) => n * experts == width,
                _ => false,
            }
            &&& new_text.get("intermediate_size"@) is None
            &&& new_text.get("shared_expert_intermediate_size"@) == Some(JsonModel::UInt(1))
            &&& new_text.get("output_router_logits"@) == Some(JsonModel::Bool(true))
            &&& new_text.get("router_aux_loss_coef"@) == Some(
                JsonModel::Float(0x3f50_624d_d2f1_a9fc),
            )
            &&& new_text.get("model_type"@) == Some(JsonModel::Text("qwen3_5_moe_text"@))
            &&& new.get("model_type"@) == Some(JsonModel::Text("qwen3_5_moe"@))
            &&& new.get("architectures"@) == Some(
                JsonModel::List(seq![JsonModel::Text("Qwen3_5MoeForConditionalGeneration"@)]),
            )
        }),
{
    let old_text = config@.get("text_config"@)->0;
    let new = r->Ok_0.config@;
    let new_text = new.get("text_config"@)->0;
    let width = r->Ok_0.sizes.intermediate;
    let m = json::members(new_text);
    let root = json::members(new);
    lemma_keys_differ();
    lemma_members(new_text, m, "num_experts_per_tok"@);
    lemma_members(new_text, m, "num_experts"@);
    lemma_members(new_text, m, "moe_intermediate_size"@);
    lemma_members(new_text, m, "intermediate_size"@);
    lemma_members(new_text, m, "shared_expert_intermediate_size"@);
    lemma_members(new_text, m, "output_router_logits"@);
    lemma_members(new_text, m, "router_aux_loss_coef"@);
    lemma_members(new_text, m, "model_type"@);
    lemma_members(new, root, "model_type"@);
    lemma_members(new, root, "architectures"@);
    assert(width / experts * experts == width) by (nonlinear_arith)
        requires
            experts > 0,
            width % experts == 0,
    ;
}

/// A conversion leaves alone what it does not set: the keys that are not named here lead to the
/// same in the new configuration and in its text part as in the old one.
pub proof fn law_conversion_keeps_the_rest(
    config: &Json,
    experts: usize,
    top_k: usize,
    r: Result<ConvertedConfig, ConfigError>,
    key: Seq<char>,
)
    requires
        experts > 0,
        call_ensures(convert_config, (config, experts, top_k), r),
        r is Ok,
    ensures
        key != "architectures"@ && key != "model_type"@ && key != "text_config"@
            ==> r->Ok_0.config@.get(key) == config@.get(key),
        key != "model_type"@ && key != "intermediate_size"@ && key != "moe_intermediate_size"@ && key
            != "shared_expert_intermediate_size"@ && key != "num_experts"@ && key
            != "num_experts_per_tok"@ && key != "output_router_logits"@ && key
            != "router_aux_loss_coef"@ ==> r->Ok_0.config@.get("text_config"@)->0.get(key)
            == config@.get("text_config"@)->0.get(key),
{
    let old_text = config@.get("text_config"@)->0;
    let new = r->Ok_0.config@;
    let new_text = new.get("text_config"@)->0;
    lemma_members(new_text, json::members(new_text), key);
    lemma_members(old_text, json::members(old_text), key);
    lemma_members(new, json::members(new), key);
    lemma_members(config@, json::members(config@), key);
}

/// Two conversions of one configuration with the same experts differ in the number of experts for
/// each token exactly where they were asked for different numbers.
pub proof fn law_conversions_differ_in_top_k(
    config: &Json,
    experts: usize,
    j: usize,
    k: usize,
    x: Result<ConvertedConfig, ConfigError>,
    y: Result<ConvertedConfig, ConfigError>,
)
    requires
        experts > 0,
        call_ensures(convert_config, (config, experts, j), x),
        call_ensures(convert_config, (config, experts, k), y),
    ensures
        x is Ok <==> y is Ok,
        x is Ok ==> (x->Ok_0.config@.get("text_config"@)->0.get("num_experts_per_tok"@)
            == y->Ok_0.config@.get("text_config"@)->0.get("num_experts_per_tok"@) <==> j == k),
{
    if x is Ok && y is Ok {
        law_converted_config(config, experts, j, x);
        law_converted_config(config, experts, k, y);
    }
}

/// A number under a key that the machine can count to.
pub open spec fn countable_at(v: JsonModel, key: Seq<char>) -> bool {
    match v.get(key) {
        Some(JsonModel::UInt(n)) => n <= usize::MAX,
        _ => false,
    }
}

/// The configurations that are converted: those of a dense `qwen3_5` model whose sizes are stated
/// and whose width can be shared out among the experts. The sizes are those that it states, and no
/// further heads where it states none.
pub proof fn law_dense_models_are_converted(
    config: &Json,
    experts: usize,
    r: Result<ModelSizes, ConfigError>,
)
    requires
        experts > 0,
        call_ensures(read_sizes, (config, experts), r),
    ensures
        ({
            let t = config@.get("text_config"@);
            r is Ok <==> {
                &&& config@.get("model_type"@) == Some(JsonModel::Text("qwen3_5"@))
                &&& t is Some
                &&& t->0.get("model_type"@) == Some(JsonModel::Text("qwen3_5_text"@))
                &&& countable_at(t->0, "num_hidden_layers"@)
                &&& countable_at(t->0, "hidden_size"@)
                &&& countable_at(t->0, "intermediate_size"@)
                &&& t->0.get("intermediate_size"@)->0->UInt_0 as int % experts as int == 0
            }
        }),
        r is Ok ==> {
            let t = config@.get("text_config"@)->0;
            let s = r->Ok_0;
            &&& t.get("num_hidden_layers"@) == Some(JsonModel::UInt(s.n_layers as u64))
            &&& t.get("hidden_size"@) == Some(JsonModel::UInt(s.hidden as u64))
            &&& t.get("intermediate_size"@) == Some(JsonModel::UInt(s.intermediate as u64))
            &&& countable_at(t, "mtp_num_hidden_layers"@) ==> t.get("mtp_num_hidden_layers"@)
                == Some(JsonModel::UInt(s.mtp_layers as u64))
            &&& !countable_at(t, "mtp_num_hidden_layers"@) ==> s.mtp_layers == 0
        },
{
}

/// Options go together if and only if there are at least two experts, each token passes at least
/// one and at most all of them, and a shard has a size that is not zero. What is told is that size.
pub proof fn law_options_go_together(o: &MoefyOptions, r: Result<u64, OptionsError>)
    requires
        call_ensures(check_options, (o,), r),
    ensures
        r is Ok ==> o.experts >= 2 && 1 <= o.top_k <= o.experts && r->Ok_0 > 0,
        o.experts < 2 ==> r == Err::<u64, _>(OptionsError::TooFewExperts),
        o.experts >= 2 && !(1 <= o.top_k <= o.experts) ==> r == Err::<u64, _>(
            OptionsError::TopKOutOfRange,
        ),
{
}

} // verus!
