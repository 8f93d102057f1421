use requant::gguf::geometry::packed_nbytes_of;
use requant::json::{parse, render_pretty, Json};
use requant::pack::output::{is_support_file, manifest, next_rows, pack_items, pack_total};
use requant::pack::report::report;
use requant::pack::{
    flatten, parse_size, parse_type, plan_pack, quant_name, request, requests, role_of, row_bytes,
    source_row, CheckpointError, PackError, PackOptions, PackPlan, PackRole, Planned, GGML_Q4_K,
    GGML_Q5_0, GGML_Q6_K, GGML_Q8_0, ROW_CHUNK,
};
use requant::safetensors::sharded::ShardedSafeTensors;
use requant::safetensors::shards::{index_json, plan_files};
use requant::safetensors::{SafeTensors, StDtype};

/// A checkpoint with one tensor per interesting role, at the real model's row lengths so
/// the alignment rules fire for the same reasons they do on the 27B: `cols = 5120` takes
/// the k-quant path, `cols = 544` forces the Q5_0 fallback, `cols = 1` cannot be
/// quantized at all.
fn tiny_checkpoint() -> Vec<u8> {
    let mut header = serde_json::Map::new();
    let mut blob: Vec<u8> = Vec::new();
    for (name, shape) in [
        ("model.layers.0.self_attn.q_proj.weight", vec![512u64, 5120]),
        ("model.layers.0.mlp.experts.gate_up_proj", vec![4, 32, 5120]),
        ("model.layers.0.mlp.experts.down_proj", vec![4, 32, 544]),
        ("model.layers.0.mlp.gate.weight", vec![4, 5120]),
        ("model.layers.0.input_layernorm.weight", vec![5120]),
        ("model.visual.blocks.0.attn.proj.weight", vec![64, 1152]),
        ("lm_head.weight", vec![256, 5120]),
    ] {
        let n: u64 = shape.iter().product();
        let start = blob.len();
        for i in 0..n {
            let v = ((i % 61) as f32 - 30.0) * if i % 97 == 0 { 0.5 } else { 0.01 };
            blob.extend_from_slice(&half::bf16::from_f32(v).to_le_bytes());
        }
        let mut e = serde_json::Map::new();
        e.insert("dtype".into(), serde_json::Value::from("BF16"));
        e.insert("shape".into(), serde_json::Value::from(shape));
        e.insert("data_offsets".into(), serde_json::Value::from(vec![start, blob.len()]));
        header.insert(name.into(), serde_json::Value::Object(e));
    }
    let h = serde_json::to_vec(&serde_json::Value::Object(header)).unwrap();
    let mut out = (h.len() as u64).to_le_bytes().to_vec();
    out.extend(h);
    out.extend(blob);
    out
}

fn options() -> PackOptions {
    PackOptions {
        input_dir: "in".into(),
        output_dir: "out".into(),
        expert_type: GGML_Q4_K,
        attn_type: GGML_Q6_K,
        embed_type: GGML_Q6_K,
        max_shard_size: 1 << 30,
        dry_run: false,
    }
}

fn open(buf: &[u8]) -> ShardedSafeTensors<'_> {
    ShardedSafeTensors::from_shards(vec![SafeTensors::from_bytes(buf).unwrap()])
}

/// The type that a row of this length can hold: the wanted one, or a block of thirty-two.
fn fallbacks(src: &ShardedSafeTensors<'_>, opts: &PackOptions) -> Vec<(u32, bool)> {
    requests(src, opts)
        .iter()
        .map(|r| match r {
            Some((want, cols)) if cols % 256 == 0 => (*want, false),
            Some((want, cols)) if cols % 32 == 0 && *want == GGML_Q4_K => (GGML_Q5_0, true),
            Some((_, cols)) if cols % 32 == 0 => (GGML_Q8_0, true),
            _ => (1, true),
        })
        .collect()
}

fn plan(src: &ShardedSafeTensors<'_>) -> Vec<Planned> {
    plan_pack(src, &options(), &fallbacks(src, &options())).unwrap()
}

/// The files of the output, with zeros in place of quantized rows.
fn packed(src: &ShardedSafeTensors<'_>, planned: &[Planned]) -> Vec<Vec<u8>> {
    let items = pack_items(planned);
    plan_files(&items, options().max_shard_size)
        .iter()
        .map(|f| {
            let mut b = f.header.clone();
            for p in &planned[f.first..f.end] {
                match p.plan {
                    PackPlan::Passthrough => b.extend_from_slice(src.bytes(&p.name).unwrap()),
                    PackPlan::Quantize { rows, row_bytes, .. } => {
                        b.resize(b.len() + rows * row_bytes, 0)
                    }
                }
            }
            b
        })
        .collect()
}

fn written(planned: &[Planned]) -> Json {
    parse(&render_pretty(&manifest(planned, &options(), "requant"))).unwrap()
}

#[test]
fn each_role_gets_the_type_the_recipe_assigns() {
    let buf = tiny_checkpoint();
    let src = open(&buf);
    let m = written(&plan(&src));
    let t = m.get("tensors").unwrap();
    let format = |name: &str| t.get(name).and_then(|e| e.str_at("format"));

    assert_eq!(format("model.layers.0.self_attn.q_proj.weight"), Some("Q6_K"));
    assert_eq!(format("lm_head.weight"), Some("Q6_K"));
    assert_eq!(format("model.layers.0.mlp.experts.gate_up_proj"), Some("Q4_K"));
    // cols = 544 is not a 256-element super-block, so Q4_K falls back the way
    // llama-quantize does. This is the case the whole fallback path exists for.
    assert_eq!(format("model.layers.0.mlp.experts.down_proj"), Some("Q5_0"));

    // Protected and unquantizable roles must be absent, not present at some type: a
    // loader reads an absent name straight from the safetensors dtype.
    assert!(t.get("model.layers.0.mlp.gate.weight").is_none(), "router must stay BF16");
    assert!(t.get("model.layers.0.input_layernorm.weight").is_none(), "1-D must stay BF16");
    assert!(t.get("model.visual.blocks.0.attn.proj.weight").is_none(), "vision must stay BF16");
}

#[test]
fn manifest_row_geometry_matches_the_bytes_on_disk() {
    let buf = tiny_checkpoint();
    let src = open(&buf);
    let planned = plan(&src);
    let m = written(&planned);
    let files = packed(&src, &planned);
    let packed = ShardedSafeTensors::from_shards(
        files.iter().map(|f| SafeTensors::from_bytes(f).unwrap()).collect(),
    );

    let tensors = match m.get("tensors").unwrap() {
        Json::Object(t) => t,
        _ => panic!("an object was expected"),
    };
    assert_eq!(tensors.len(), 4);
    for (name, entry) in tensors {
        let rows = entry.u64_at("rows").unwrap() as usize;
        let rb = entry.u64_at("row_bytes").unwrap() as usize;
        let cols = entry.u64_at("cols").unwrap() as usize;
        let bytes = packed.bytes(name).unwrap();
        assert_eq!(bytes.len(), rows * rb, "{name}: byte length");
        let want = row_bytes(entry.u64_at("ggml_type").unwrap() as u32, cols).unwrap();
        assert_eq!(rb, want, "{name}: row_bytes disagrees with its own type");
        assert_eq!(packed.entry(name).unwrap().dtype.name(), "U8", "{name}: header dtype");
    }
}

#[test]
fn passthrough_tensors_are_copied_byte_for_byte() {
    let buf = tiny_checkpoint();
    let source = open(&buf);
    let files = packed(&source, &plan(&source));
    let packed = ShardedSafeTensors::from_shards(
        files.iter().map(|f| SafeTensors::from_bytes(f).unwrap()).collect(),
    );
    for name in ["model.layers.0.mlp.gate.weight", "model.layers.0.input_layernorm.weight"] {
        assert_eq!(source.bytes(name).unwrap(), packed.bytes(name).unwrap(), "{name}");
        assert_eq!(packed.entry(name).unwrap().dtype.name(), "BF16", "{name}");
        assert_eq!(packed.entry(name).unwrap().shape, source.entry(name).unwrap().shape);
    }
}

#[test]
fn support_files_come_along_and_shards_are_reindexed() {
    let buf = tiny_checkpoint();
    let src = open(&buf);
    assert!(is_support_file("config.json"), "config.json must be copied");
    // The source index must not be copied over the one just written.
    assert!(!is_support_file("model.safetensors.index.json"));
    assert!(!is_support_file("model.safetensors"), "output is sharded, not single-file");
    let idx = index_json(&pack_items(&plan(&src)), options().max_shard_size);
    match idx.get("weight_map").unwrap() {
        Json::Object(map) => assert!(map.len() == 7),
        _ => panic!("an object was expected"),
    }
}

#[test]
fn an_unknown_type_name_is_rejected_with_the_supported_list() {
    let err = parse_type("IQ2_XXS").unwrap_err().message();
    assert!(err.contains("Q4_K") && err.contains("Q6_K"), "{err}");
    assert_eq!(parse_type("q4_k").unwrap(), GGML_Q4_K);
}

#[test]
fn size_suffixes_parse() {
    assert_eq!(parse_size("5G").unwrap(), 5 << 30);
    assert_eq!(parse_size("750M").unwrap(), 750 << 20);
    assert_eq!(parse_size("1024").unwrap(), 1024);
    assert!(parse_size("big").is_none());
}

#[test]
fn roles_follow_names_and_ranks() {
    assert_eq!(role_of("model.layers.0.input_layernorm.weight", 1), PackRole::Vector);
    assert_eq!(role_of("model.visual.blocks.0.attn.proj.weight", 2), PackRole::Vision);
    assert_eq!(role_of("model.layers.0.mlp.gate.weight", 2), PackRole::Router);
    assert_eq!(role_of("model.layers.0.mlp.experts.down_proj", 3), PackRole::Experts);
    assert_eq!(role_of("lm_head.weight", 2), PackRole::Embeddings);
    assert_eq!(role_of("model.layers.0.self_attn.q_proj.weight", 2), PackRole::Attention);
    assert_eq!(PackRole::Experts.wanted(&options()), Some(GGML_Q4_K));
    assert_eq!(PackRole::Router.wanted(&options()), None);
}

#[test]
fn rows_have_the_bytes_of_their_blocks() {
    assert_eq!(row_bytes(GGML_Q6_K, 5120).unwrap() as u64, packed_nbytes_of(14, 5120).unwrap());
    assert_eq!(
        row_bytes(GGML_Q4_K, 544).unwrap_err(),
        PackError::NotDivisible { ggml_type: GGML_Q4_K, cols: 544, block: 256 }
    );
    assert_eq!(row_bytes(9999, 32).unwrap_err(), PackError::UnsupportedType(9999));
    assert_eq!(flatten(&[4, 32, 544]), Some((128, 544)));
    assert_eq!(flatten(&[u64::MAX, 2, 3]), None);
    assert_eq!(request("lm_head.weight", &[256, 5120], &options()), Some((GGML_Q6_K, 5120)));
    assert_eq!(request("model.layers.0.mlp.gate.weight", &[4, 5120], &options()), None);
    assert_eq!(quant_name(GGML_Q5_0), "Q5_0");
}

#[test]
fn rows_widen_one_by_one() {
    let mut src = Vec::new();
    for v in [1.0f32, -2.5, 0.25, 8.0] {
        src.extend_from_slice(&half::bf16::from_f32(v).to_le_bytes());
    }
    assert_eq!(
        source_row(StDtype::BF16, &src, 1, 2),
        vec![0.25f32.to_bits(), 8.0f32.to_bits()]
    );
    assert_eq!(next_rows(0, 10), 10);
    assert_eq!(next_rows(0, ROW_CHUNK + 5), ROW_CHUNK);
    assert_eq!(next_rows(ROW_CHUNK, ROW_CHUNK + 5), 5);
}

#[test]
fn an_empty_checkpoint_is_refused() {
    let mut buf = 2u64.to_le_bytes().to_vec();
    buf.extend_from_slice(b"{}");
    let src = open(&buf);
    assert!(matches!(
        plan_pack(&src, &options(), &[]).unwrap_err(),
        CheckpointError::Empty
    ));
}

#[test]
fn the_report_adds_up() {
    let buf = tiny_checkpoint();
    let src = open(&buf);
    let planned = plan(&src);
    let r = report(&planned);
    let out: u64 = planned.iter().map(|p| p.out_bytes).sum();
    let had: u64 = planned.iter().map(|p| p.src_bytes).sum();
    assert_eq!((r.src_bytes, r.out_bytes), (had as u128, out as u128));
    assert_eq!(pack_total(&planned), Some(out));
    assert_eq!(r.fallbacks.len(), 1);
    assert_eq!(r.fallbacks[0].cols, 544);
    let experts = r.roles.iter().find(|x| x.role == PackRole::Experts.label()).unwrap();
    assert_eq!(experts.total.count, 2);
}
