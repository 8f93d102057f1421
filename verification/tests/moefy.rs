use requant::json::{parse, render_pretty, Json};
use requant::moefy::config::{convert_config, read_sizes, ConfigError};
use requant::moefy::layers::{check_shape, discover_layers, LayerErrorKind};
use requant::moefy::payload::{
    gather_down, pack_gate_up, random_units, stable_seed, step, Payload,
};
use requant::moefy::plan::OutputTensor;
use requant::moefy::run::{
    count_input, count_output, fill, is_fillable, is_support_file, manifest, plan_conversion, shard_items,
    Filling, MoefyError, MoefyPlan,
};
use requant::moefy::{check_options, parse_size, MoefyOptions, OptionsError, SizeError};
use requant::safetensors::sharded::ShardedSafeTensors;
use requant::safetensors::shards::{index_json, plan_files};
use requant::safetensors::{SafeTensors, StDtype};

const TEXT_LAYER_PREFIX: &str = "model.language_model.layers.";

fn safetensors(entries: &[(String, &str, Vec<u64>, Vec<u8>)]) -> Vec<u8> {
    let mut header = serde_json::Map::new();
    let mut blob: Vec<u8> = Vec::new();
    for (name, dtype, shape, bytes) in entries {
        let start = blob.len();
        blob.extend_from_slice(bytes);
        let mut e = serde_json::Map::new();
        e.insert("dtype".into(), serde_json::Value::from(*dtype));
        e.insert("shape".into(), serde_json::Value::from(shape.clone()));
        e.insert("data_offsets".into(), serde_json::Value::from(vec![start, blob.len()]));
        header.insert(name.clone(), serde_json::Value::Object(e));
    }
    let h = serde_json::to_vec(&serde_json::Value::Object(header)).unwrap();
    let mut out = (h.len() as u64).to_le_bytes().to_vec();
    out.extend(h);
    out.extend(blob);
    out
}

fn bf16_seq(n: usize, base: u16) -> Vec<u8> {
    (0..n).flat_map(|i| (base + i as u16).to_le_bytes()).collect()
}

fn config() -> Json {
    parse(
        br#"{
            "architectures": ["Qwen3_5ForConditionalGeneration"],
            "model_type": "qwen3_5",
            "text_config": {
                "model_type": "qwen3_5_text",
                "num_hidden_layers": 2,
                "mtp_num_hidden_layers": 1,
                "hidden_size": 4,
                "intermediate_size": 8,
                "layer_types": ["linear_attention", "full_attention"]
            },
            "vision_config": {"model_type": "qwen3_5", "hidden_size": 2}
        }"#,
    )
    .unwrap()
}

fn fixture() -> Vec<u8> {
    let mut owned: Vec<(String, &str, Vec<u64>, Vec<u8>)> = Vec::new();
    for layer in 0..2 {
        owned.push((
            format!("{TEXT_LAYER_PREFIX}{layer}.mlp.gate_proj.weight"),
            "BF16",
            vec![8, 4],
            bf16_seq(32, 1000 + layer * 100),
        ));
        owned.push((
            format!("{TEXT_LAYER_PREFIX}{layer}.mlp.up_proj.weight"),
            "BF16",
            vec![8, 4],
            bf16_seq(32, 2000 + layer * 100),
        ));
        owned.push((
            format!("{TEXT_LAYER_PREFIX}{layer}.mlp.down_proj.weight"),
            "BF16",
            vec![4, 8],
            bf16_seq(32, 3000 + layer * 100),
        ));
    }
    owned.push((
        "mtp.layers.0.mlp.gate_proj.weight".into(),
        "BF16",
        vec![8, 4],
        bf16_seq(32, 4000),
    ));
    owned.push((
        "mtp.layers.0.mlp.up_proj.weight".into(),
        "BF16",
        vec![8, 4],
        bf16_seq(32, 5000),
    ));
    owned.push((
        "mtp.layers.0.mlp.down_proj.weight".into(),
        "BF16",
        vec![4, 8],
        bf16_seq(32, 6000),
    ));
    owned.push((
        "model.language_model.embed_tokens.weight".into(),
        "BF16",
        vec![3, 4],
        bf16_seq(12, 50),
    ));
    safetensors(&owned)
}

fn scaled(dtype: StDtype, bytes: &[u8], factor: f32) -> Vec<u8> {
    assert_eq!(dtype, StDtype::BF16);
    bytes
        .chunks_exact(2)
        .flat_map(|c| {
            let v = half::bf16::from_le_bytes([c[0], c[1]]).to_f32();
            half::bf16::from_f32(v * factor).to_le_bytes()
        })
        .collect()
}

/// The bytes of one tensor of the output.
fn filled(src: &ShardedSafeTensors<'_>, plan: &MoefyPlan, i: usize) -> Vec<u8> {
    let t = &plan.tensors[i];
    match fill(src, t).unwrap() {
        Filling::Copied(b) => b.to_vec(),
        Filling::Packed(v) => v,
        Filling::Scaled { bytes, factor } => scaled(t.dtype, &bytes, factor as f32),
        Filling::Zeros(n) => vec![0; n as usize],
        Filling::Random { units, amplitude } => units
            .iter()
            .flat_map(|u| {
                let unit = *u as f32 / ((1u32 << 24) - 1) as f32;
                let v = (unit * 2.0 - 1.0) * f32::from_bits(amplitude);
                half::bf16::from_f32(v).to_le_bytes()
            })
            .collect(),
    }
}

/// Every file of the output.
fn converted(src: &ShardedSafeTensors<'_>, plan: &MoefyPlan, max: u64) -> Vec<Vec<u8>> {
    let items = shard_items(&plan.tensors);
    plan_files(&items, max)
        .iter()
        .map(|f| {
            let mut b = f.header.clone();
            for i in f.first..f.end {
                let data = filled(src, plan, i);
                assert_eq!(data.len() as u64, plan.tensors[i].nbytes);
                b.extend(data);
            }
            b
        })
        .collect()
}

#[test]
fn converts_tiny_dense_checkpoint_without_model_weights() {
    let input = fixture();
    let src = ShardedSafeTensors::from_shards(vec![SafeTensors::from_bytes(&input).unwrap()]);
    let opts = MoefyOptions {
        input_dir: "dense".into(),
        output_dir: "moe".into(),
        experts: 2,
        top_k: 1,
        max_shard_size: "1K".into(),
        dry_run: false,
    };
    let max = check_options(&opts).unwrap();
    let plan = plan_conversion(&config(), &src, opts.experts, opts.top_k).unwrap();

    let cfg = &plan.config;
    assert_eq!(cfg.str_at("model_type"), Some("qwen3_5_moe"));
    let text = cfg.get("text_config").unwrap();
    assert_eq!(text.str_at("model_type"), Some("qwen3_5_moe_text"));
    assert_eq!(text.u64_at("num_experts"), Some(2));
    assert_eq!(text.u64_at("moe_intermediate_size"), Some(4));
    assert!(text.get("intermediate_size").is_none());
    assert!(matches!(
        text.get("router_aux_loss_coef"),
        Some(Json::Float(x)) if *x == 0.001f64.to_bits()
    ));

    let files = converted(&src, &plan, max);
    let out = ShardedSafeTensors::from_shards(
        files.iter().map(|f| SafeTensors::from_bytes(f).unwrap()).collect(),
    );
    let p = format!("{TEXT_LAYER_PREFIX}0.mlp");
    let gu = out.entry(&format!("{p}.experts.gate_up_proj")).unwrap();
    assert_eq!(gu.shape, vec![2, 8, 4]);
    let down = out.entry(&format!("{p}.experts.down_proj")).unwrap();
    assert_eq!(down.shape, vec![2, 4, 4]);
    assert_eq!(out.entry(&format!("{p}.gate.weight")).unwrap().shape, vec![2, 4]);
    assert!(!out.contains(&format!("{p}.gate_proj.weight")));
    assert!(out.contains("model.language_model.embed_tokens.weight"));
    assert!(out.contains("mtp.layers.0.mlp.experts.gate_up_proj"));
    assert!(!out.contains("mtp.layers.0.mlp.gate_proj.weight"));
    assert!(is_support_file("tokenizer.json"));
    assert_eq!(
        out.bytes("model.language_model.embed_tokens.weight").unwrap(),
        bf16_seq(12, 50)
    );

    let gate = bf16_seq(32, 1000);
    let up = bf16_seq(32, 2000);
    let packed = out.bytes(&format!("{p}.experts.gate_up_proj")).unwrap();
    assert_eq!(&packed[0..32], &gate[0..32]);
    assert_eq!(&packed[32..64], &up[0..32]);
    assert_eq!(&packed[64..96], &gate[32..64]);
    assert_eq!(&packed[96..128], &up[32..64]);

    let dense_down = bf16_seq(32, 3000);
    let packed_down = out.bytes(&format!("{p}.experts.down_proj")).unwrap();
    let expected_first_unscaled: Vec<u8> =
        (0..4).flat_map(|row| dense_down[row * 16..row * 16 + 8].to_vec()).collect();
    let expected_first = scaled(StDtype::BF16, &expected_first_unscaled, 2.0);
    assert_eq!(&packed_down[..32], expected_first.as_slice());
    assert!(out.bytes(&format!("{p}.gate.weight")).unwrap().iter().any(|&b| b != 0));
    let m = parse(&render_pretty(&manifest("dense", 2, 1, 8, 4))).unwrap();
    assert!(matches!(m.get("inference_ready"), Some(Json::Bool(false))));

    let index = index_json(&shard_items(&plan.tensors), max);
    match index.get("weight_map").unwrap() {
        Json::Object(map) => assert_eq!(map.len(), out.names().len()),
        _ => panic!("an object was expected"),
    }
    assert_eq!(count_output(&plan.tensors), Some(plan.output_bytes));
    assert_eq!(count_input(&src), Some(plan.input_bytes));
}

#[test]
fn rejects_non_divisible_expert_count() {
    let config = parse(
        br#"{
            "model_type": "qwen3_5",
            "text_config": {
                "model_type": "qwen3_5_text",
                "num_hidden_layers": 1,
                "hidden_size": 4,
                "intermediate_size": 8
            }
        }"#,
    )
    .unwrap();
    assert!(convert_config(&config, 3, 1).is_err());
    assert_eq!(
        convert_config(&config, 3, 1).unwrap_err(),
        ConfigError::NotDivisible { intermediate: 8, experts: 3 }
    );
}

#[test]
fn parses_binary_shard_sizes() {
    assert_eq!(parse_size("5G").unwrap(), 5 * 1024u64.pow(3));
    assert_eq!(parse_size("750MiB").unwrap(), 750 * 1024u64.pow(2));
    assert!(parse_size("1T").is_err());
}

#[test]
fn sizes_that_are_none_are_told_apart() {
    assert_eq!(parse_size("  ").unwrap_err(), SizeError::Empty);
    assert_eq!(parse_size("G").unwrap_err(), SizeError::NoNumber);
    assert_eq!(parse_size("1T").unwrap_err(), SizeError::UnknownSuffix);
    assert_eq!(parse_size("18446744073709551615K").unwrap_err(), SizeError::Overflow);
    assert_eq!(parse_size(" 12 kib ").unwrap(), 12 * 1024);
    assert_eq!(parse_size("7").unwrap(), 7);
}

#[test]
fn options_are_checked_in_order() {
    let opts = |experts, top_k, size: &str| MoefyOptions {
        input_dir: "a".into(),
        output_dir: "b".into(),
        experts,
        top_k,
        max_shard_size: size.into(),
        dry_run: false,
    };
    assert_eq!(check_options(&opts(1, 1, "1K")).unwrap_err(), OptionsError::TooFewExperts);
    assert_eq!(check_options(&opts(4, 5, "1K")).unwrap_err(), OptionsError::TopKOutOfRange);
    assert_eq!(check_options(&opts(4, 0, "1K")).unwrap_err(), OptionsError::TopKOutOfRange);
    assert_eq!(
        check_options(&opts(4, 2, "x")).unwrap_err(),
        OptionsError::ShardSize(SizeError::NoNumber)
    );
    assert_eq!(check_options(&opts(4, 2, "0")).unwrap_err(), OptionsError::ZeroShardSize);
    assert_eq!(check_options(&opts(4, 2, "5G")).unwrap(), 5 << 30);
}

#[test]
fn configs_that_do_not_fit_are_refused() {
    let bad = |text: &str| read_sizes(&parse(text.as_bytes()).unwrap(), 2).unwrap_err();
    assert_eq!(bad("[]"), ConfigError::NotAnObject);
    assert_eq!(bad("{}"), ConfigError::WrongModelType);
    assert_eq!(bad(r#"{"model_type":"qwen3_5"}"#), ConfigError::MissingTextConfig);
    assert_eq!(
        bad(r#"{"model_type":"qwen3_5","text_config":{}}"#),
        ConfigError::WrongTextType
    );
    let with = |rest: &str| {
        format!(
            "{{\"model_type\":\"qwen3_5\",\"text_config\":{{\"model_type\":\"qwen3_5_text\"{rest}}}}}"
        )
    };
    assert_eq!(bad(&with("")), ConfigError::MissingLayerCount);
    assert_eq!(bad(&with(",\"num_hidden_layers\":1")), ConfigError::MissingHiddenSize);
    assert_eq!(
        bad(&with(",\"num_hidden_layers\":1,\"hidden_size\":4")),
        ConfigError::MissingIntermediateSize
    );
}

#[test]
fn a_missing_layer_is_named() {
    let buf = safetensors(&[]);
    let src = ShardedSafeTensors::from_shards(vec![SafeTensors::from_bytes(&buf).unwrap()]);
    let sizes = read_sizes(&config(), 2).unwrap();
    let err = discover_layers(&src, sizes, 2).unwrap_err();
    assert!(matches!(err.kind, LayerErrorKind::MissingTensor));
    assert_eq!(err.name, format!("{TEXT_LAYER_PREFIX}0.mlp.gate_proj.weight"));
    assert!(matches!(
        plan_conversion(&config(), &src, 2, 1).unwrap_err(),
        MoefyError::Layer(_)
    ));
    assert!(check_shape(&[2, 3], 2, 3));
    assert!(!check_shape(&[2, 3], 3, 2));
    assert!(!check_shape(&[6], 2, 3));
}

#[test]
fn packing_and_gathering_move_every_byte() {
    assert_eq!(
        pack_gate_up(&[1, 2, 3, 4], &[5, 6, 7, 8], 2, 2),
        vec![1, 2, 5, 6, 3, 4, 7, 8]
    );
    // Two rows of two parts of two bytes.
    assert_eq!(
        gather_down(&[1, 2, 3, 4, 5, 6, 7, 8], 2, 2, 4, 2),
        vec![1, 2, 5, 6, 3, 4, 7, 8]
    );
    // The same parts out of rows of three bytes, of which the experts take two.
    assert_eq!(gather_down(&[1, 2, 0, 3, 4], 2, 2, 3, 1), vec![1, 3, 2, 4]);
}

#[test]
fn the_down_projection_is_stepped_through_by_its_own_width() {
    let b = safetensors(&[("d".into(), "BF16", vec![2, 3], (1..=12).collect())]);
    let st = SafeTensors::from_bytes(&b).unwrap();
    let down = |hidden, intermediate| OutputTensor {
        name: "out".into(),
        dtype: StDtype::BF16,
        shape: vec![2, 2, 1],
        nbytes: 8,
        payload: Payload::Down {
            source: "d".into(),
            experts: 2,
            hidden,
            intermediate,
            expert_intermediate: 1,
        },
    };
    match fill(&st, &down(2, 3)).unwrap() {
        Filling::Scaled { bytes, factor } => {
            assert_eq!(bytes, vec![1, 2, 7, 8, 3, 4, 9, 10]);
            assert_eq!(factor, 2);
        }
        _ => panic!("a scaled tensor was expected"),
    }
    // The last row need not be whole; one row more is too many.
    assert!(is_fillable(&st, &down(2, 4)));
    assert!(!is_fillable(&st, &down(2, 5)));
    assert!(!is_fillable(&st, &down(3, 3)));
    assert!(is_fillable(&st, &down(0, usize::MAX / 2)));
}

#[test]
fn nothing_is_divided_where_something_else_is_wrong() {
    let other = parse(br#"{"model_type": "llama"}"#).unwrap();
    assert_eq!(read_sizes(&other, 0).unwrap_err(), ConfigError::WrongModelType);
    assert!(convert_config(&other, 0, 1).is_err());
}

#[test]
fn the_router_starts_from_its_name() {
    // The offset basis of the hash, and the hash of one letter.
    assert_eq!(stable_seed(""), 0xcbf2_9ce4_8422_2325);
    assert_eq!(stable_seed("a"), 0xaf63_dc4c_8601_ec8c);
    let units = random_units(stable_seed("x"), 1000);
    assert!(units.iter().all(|u| *u < 1 << 24));
    assert_eq!(units, random_units(stable_seed("x"), 1000));
    assert_ne!(units, random_units(stable_seed("y"), 1000));
    let (s, u) = step(stable_seed("x"));
    assert_eq!(units[0], u);
    assert_eq!(units[1], step(s).1);
}

#[test]
fn support_files_are_those_that_are_not_written_anew() {
    for name in [
        "config.json",
        "model.safetensors.index.json",
        "model-00001-of-00002.safetensors",
        "requant_moe_conversion.json",
    ] {
        assert!(!is_support_file(name), "{name}");
    }
    assert!(is_support_file("generation_config.json"));
}
