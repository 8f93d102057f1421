use requant::gguf::value::GgufValue;
use requant::ir::{
    dense_ffn_role, is_norm_tensor, FfnPart, LayoutError, MlaPart, ModelLayout, Role, TensorTag,
};

fn layout() -> ModelLayout {
    ModelLayout {
        arch: "llama".into(),
        n_layers: 4,
        expert_count: 0,
        expert_used: 0,
        shared_count: 0,
        is_moe: false,
    }
}

fn tag(name: &str) -> TensorTag {
    TensorTag::tag(name, &layout())
}

#[test]
fn fused_qkv_tags_onto_dense_attention_path() {
    let w = tag("blk.0.attn_qkv.weight");
    assert_eq!(w.role, Role::AttnQkv);
    assert!(w.quantizable, "qkv weight must be quantizable");
    assert!(w.role.is_dense_path(), "fused qkv must be on the dense path (floor protection)");

    let b = tag("blk.0.attn_qkv.bias");
    assert_eq!(b.role, Role::AttnQkv);
    assert!(!b.quantizable, "qkv bias must not be quantized");
}

#[test]
fn mla_projections_tag_onto_dense_attention_path() {
    for (name, part) in [
        ("blk.0.attn_q_a.weight", MlaPart::QA),
        ("blk.0.attn_q_b.weight", MlaPart::QB),
        ("blk.0.attn_kv_a.weight", MlaPart::KvA),
        ("blk.0.attn_kv_a_mqa.weight", MlaPart::KvAMqa),
        ("blk.0.attn_kv_b.weight", MlaPart::KvB),
    ] {
        let t = tag(name);
        assert_eq!(t.role, Role::AttnMla(part), "{name}");
        assert!(t.quantizable, "{name} must be quantizable");
        assert!(t.role.is_dense_path(), "{name} must be on the dense path (floor protection)");
    }
    // MLA norms are 1-D and must not be quantized.
    assert!(!tag("blk.0.attn_q_a_norm.weight").quantizable);
    assert!(!tag("blk.0.attn_kv_a_norm.weight").quantizable);
    assert_eq!(tag("blk.0.attn_q_a_norm.weight").role, Role::Norm);
}

#[test]
fn ssm_weight_matrices_tag_onto_dense_path_params_protected() {
    for name in [
        "blk.0.ssm_in.weight",
        "blk.0.ssm_out.weight",
        "blk.0.ssm_x.weight",
        "blk.0.ssm_conv1d.weight",
        "blk.0.ssm_f.weight",
        "blk.0.ssm_b.weight",
    ] {
        let t = tag(name);
        assert_eq!(t.role, Role::Ssm, "{name}");
        assert!(t.quantizable, "{name} must be quantizable");
        assert!(t.role.is_dense_path(), "{name} must be on the dense path");
    }
    // Small / sensitive SSM params stay full-precision.
    for name in [
        "blk.0.ssm_a.weight",
        "blk.0.ssm_dt.weight",
        "blk.0.ssm_d.weight",
        "blk.0.ssm_alpha.weight",
        "blk.0.ssm_beta.weight",
        "blk.0.ssm_ba.weight",
    ] {
        let t = tag(name);
        assert_eq!(t.role, Role::SsmParam, "{name}");
        assert!(!t.quantizable, "{name} must not be quantized (log-space / selective param)");
        assert!(!t.role.is_dense_path(), "{name} is non-quantizable; not a dense-path weight");
    }
    // ssm_norm is a norm.
    assert_eq!(tag("blk.0.ssm_norm.weight").role, Role::Norm);
    assert!(!tag("blk.0.ssm_norm.weight").quantizable);
}

#[test]
fn attn_norm_2_is_a_norm_not_quantizable() {
    let w = tag("blk.0.attn_norm_2.weight");
    assert_eq!(w.role, Role::Norm, "attn_norm_2 is a norm");
    assert!(!w.quantizable, "attn_norm_2 must not be block-quantized");
    let b = tag("blk.0.attn_norm_2.bias");
    assert_eq!(b.role, Role::Norm);
    assert!(!b.quantizable);
    // Per-head Q/K norms (Gemma2/3, Qwen3) are norms too.
    assert_eq!(tag("blk.0.attn_q_norm.weight").role, Role::Norm);
    assert_eq!(tag("blk.0.attn_k_norm.weight").role, Role::Norm);
}

#[test]
fn norm_detection_does_not_swallow_unrelated_suffixes() {
    assert!(is_norm_tensor("blk.0.attn_norm.weight"));
    assert!(is_norm_tensor("blk.0.ffn_norm.bias"));
    assert!(is_norm_tensor("blk.0.attn_norm_2.weight"));
    assert!(!is_norm_tensor("blk.0.attn_q.weight"));
    assert!(!is_norm_tensor("blk.0.ffn_down.weight"));
    // `_norm_` followed by non-digits is NOT a norm (avoid false positives).
    assert!(!is_norm_tensor("blk.0.ssm_norm_thing.weight"));
}

#[test]
fn block_names_split_into_number_and_rest() {
    assert_eq!(TensorTag::split_blk("blk.12.attn_q.weight"), Some((12, "attn_q.weight")));
    assert_eq!(TensorTag::split_blk("blk.x.attn_q.weight"), None);
    assert_eq!(TensorTag::split_blk("output.weight"), None);
    assert_eq!(TensorTag::split_blk("blk.4294967296.attn_q.weight"), None);
}

#[test]
fn depth_is_the_middle_of_the_block() {
    let t = tag("blk.2.attn_q.weight");
    assert_eq!(t.place.depth.num as f64 / t.place.depth.den as f64, 2.0 / 4.0);
    assert_eq!(t.place.expert, None);
}

#[test]
fn feed_forward_parts_have_their_roles() {
    assert_eq!(dense_ffn_role(FfnPart::Gate), Role::FfnGate);
    assert_eq!(dense_ffn_role(FfnPart::Up), Role::FfnUp);
    assert_eq!(dense_ffn_role(FfnPart::Down), Role::FfnDown);
    assert_eq!(tag("blk.0.ffn_up.weight").role, Role::FfnUp);
    assert_eq!(Role::FfnUp.label(), "ffn_up");
    assert!(Role::Router.is_router());
    assert!(!Role::FfnUp.is_router());
}

#[test]
fn a_layout_needs_architecture_and_block_count() {
    assert_eq!(ModelLayout::from_kv(&[]).unwrap_err(), LayoutError::MissingArchitecture);
    let arch = ("general.architecture".to_string(), GgufValue::String("qwen3moe".into()));
    assert_eq!(ModelLayout::from_kv(&[arch]).unwrap_err(), LayoutError::MissingBlockCount);
    let kv = vec![
        ("general.architecture".to_string(), GgufValue::String("qwen3moe".into())),
        ("qwen3moe.block_count".to_string(), GgufValue::U32(48)),
        ("qwen3moe.expert_count".to_string(), GgufValue::U32(128)),
        ("qwen3moe.expert_used_count".to_string(), GgufValue::U32(8)),
    ];
    let l = ModelLayout::from_kv(&kv).unwrap();
    assert_eq!((l.arch.as_str(), l.n_layers), ("qwen3moe", 48));
    assert_eq!((l.expert_count, l.expert_used, l.shared_count), (128, 8, 0));
    assert!(l.is_moe);
}
