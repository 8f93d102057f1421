use requant::blockfloat::dequant::{
    dequant_mxfp4_ggml_row, dequant_mxfp4_ocp, dequant_nvfp4_ggml_row, unpack_fp4, Factors,
};
use requant::blockfloat::{e2m1_to_f32, e4m3_to_f32, NibbleOrder};
use requant::gguf::geometry::{block_layout, ggml_type_name};
use requant::gguf::reader::GgufReader;
use requant::gguf::stream::GgufStream;
use requant::gguf::value::GgufValue;
use requant::gguf::writer::{GgufWriter, TensorPlan, TensorSpec};
use requant::ir::{FfnPart, MlaPart, ModelLayout, Role, TensorTag};
use requant::kl::KlAccumulator;
use requant::moefy::layers::DenseLayer;
use requant::moefy::payload::{stable_seed, step};
use requant::moefy::plan::build_output_plan;
use requant::names::NameMap;
use requant::pack::{parse_type, quant_name, GGML_F16, GGML_Q4_K, GGML_Q5_0, GGML_Q6_K, GGML_Q8_0};
use requant::perplexity::parse_kl_report;
use requant::quantize::run::quantize_file;
use requant::quantize::Policy;
use requant::safetensors::sharded::ShardedSafeTensors;
use requant::safetensors::{SafeTensors, StDtype, StEntry};
use requant::text::{decimal_of, parse_u32, parse_up_to, to_lowercase, to_uppercase, trim};

#[test]
fn every_packing_type_is_read_back_from_its_name() {
    for t in [GGML_F16, GGML_Q5_0, GGML_Q8_0, GGML_Q4_K, GGML_Q6_K] {
        assert_eq!(parse_type(quant_name(t)).unwrap(), t);
    }
    assert_eq!(quant_name(99), "?");
}

#[test]
fn a_random_sequence_never_reaches_zero() {
    let mut s = stable_seed("layer");
    for _ in 0..100_000 {
        s = step(s).0;
        assert_ne!(s, 0);
    }
}

#[test]
fn the_place_names_the_expert_of_the_role() {
    let layout = ModelLayout {
        arch: "llama".into(),
        n_layers: 4,
        expert_count: 8,
        expert_used: 2,
        shared_count: 0,
        is_moe: true,
    };
    let t = TensorTag::tag("blk.1.ffn_down.3.weight", &layout);
    assert_eq!(t.role, Role::RoutedExpert { idx: 3, part: FfnPart::Down });
    assert_eq!(t.place.expert, Some(3));
    assert!(t.quantizable);
    let t = TensorTag::tag("blk.1.ffn_down_exps.weight", &layout);
    assert_eq!(t.role, Role::RoutedExpert { idx: u32::MAX, part: FfnPart::Down });
    assert_eq!(t.place.expert, None);
    assert!(!TensorTag::tag("blk.1.nextn.enorm.weight", &layout).quantizable);
    assert!(!TensorTag::tag("rope_freqs.weight", &layout).quantizable);
}

#[test]
fn experts_weigh_as_much_as_the_dense_block() {
    let mut file = 2u64.to_le_bytes().to_vec();
    file.extend_from_slice(b"{}");
    let src = ShardedSafeTensors::from_shards(vec![SafeTensors::from_bytes(&file).unwrap()]);
    let layer = DenseLayer {
        prefix: "p".into(),
        gate: "g".into(),
        up: "u".into(),
        down: "d".into(),
        dtype: StDtype::F32,
        hidden: 6,
        intermediate: 20,
        expert_intermediate: 5,
    };
    let plan = build_output_plan(&src, &[layer], 4).unwrap();
    let bytes = |name: &str| plan.iter().find(|t| t.name == name).unwrap().nbytes;
    assert_eq!(bytes("p.experts.gate_up_proj") + bytes("p.experts.down_proj"), 3 * 20 * 6 * 4);
    assert_eq!(bytes("p.gate.weight"), 4 * 6 * 4);
    assert_eq!(plan.len(), 7);
    assert!(plan.windows(2).all(|w| w[0].name < w[1].name));
}

#[test]
fn other_lines_change_nothing_in_a_report() {
    let plain = "Mean KLD: 0.5\nSame top p: 90.0\n";
    let noisy = "noise\nMean KLD: 0.5\nkld: 9\n\nSame top p: 90.0\nThe end: 7\n";
    let (a, b) = (parse_kl_report(plain).unwrap(), parse_kl_report(noisy).unwrap());
    assert_eq!((a.mean.as_deref(), a.same_top.as_deref()), (Some("0.5"), Some("90.0")));
    assert_eq!((a.mean, a.same_top, a.max), (b.mean, b.same_top, b.max));
}

#[test]
fn numbers_are_read_back_from_their_digits() {
    for n in [0u64, 7, 10, 99, 4_294_967_295, u64::MAX] {
        assert_eq!(decimal_of(n), n.to_string());
        assert_eq!(parse_up_to(&decimal_of(n), u64::MAX), Some(n));
    }
    for s in ["", "+", "+5", "-5", "5 ", "00012", "4294967296", "4294967295", "1_0"] {
        assert_eq!(parse_u32(s), s.parse::<u32>().ok(), "{s:?}");
    }
}

#[test]
fn texts_are_trimmed_and_cased_as_usual() {
    for s in ["", " a b ", "\t\u{a0}x\u{3000}\n", "\u{85}q\u{2028}", "ÄäZz", "\u{200b}z"] {
        assert_eq!(trim(s), s.trim(), "{s:?}");
        assert_eq!(to_lowercase(s), s.to_ascii_lowercase());
        assert_eq!(to_uppercase(s), s.to_ascii_uppercase());
    }
}

#[test]
fn a_map_keeps_its_keys_in_order() {
    let mut m: NameMap<u32> = NameMap::new();
    for (i, k) in ["m", "b", "z", "a", "ab", "", "é", "m"].iter().enumerate() {
        m.insert(k.to_string(), i as u32);
    }
    let keys: Vec<&str> = m.items.iter().map(|(k, _)| k.as_str()).collect();
    assert_eq!(keys, vec!["", "a", "ab", "b", "m", "z", "é"]);
    assert_eq!(m.get("m"), Some(&7));
    assert_eq!(m.get("n"), None);
    m.remove("ab");
    m.remove("nothing");
    assert_eq!(m.len(), 6);
    assert!(!m.contains("ab"));
}

#[test]
fn labels_tell_roles_apart() {
    let parts = [FfnPart::Gate, FfnPart::Up, FfnPart::Down];
    let mut roles = vec![
        Role::Embedding,
        Role::LmHead,
        Role::Norm,
        Role::AttnQ,
        Role::AttnK,
        Role::AttnV,
        Role::AttnO,
        Role::FfnGate,
        Role::FfnUp,
        Role::FfnDown,
        Role::Router,
        Role::AttnQkv,
        Role::AttnMla(MlaPart::QA),
        Role::AttnMla(MlaPart::QB),
        Role::AttnMla(MlaPart::KvA),
        Role::AttnMla(MlaPart::KvAMqa),
        Role::AttnMla(MlaPart::KvB),
        Role::Ssm,
        Role::SsmParam,
        Role::Mtp,
        Role::Unknown,
    ];
    roles.extend(parts.map(Role::SharedExpert));
    roles.extend(parts.map(|part| Role::RoutedExpert { idx: 3, part }));
    let labels: std::collections::BTreeSet<&str> = roles.iter().map(|r| r.label()).collect();
    assert_eq!(labels.len(), roles.len());
    assert_eq!(
        Role::RoutedExpert { idx: 0, part: FfnPart::Up }.label(),
        Role::RoutedExpert { idx: 9, part: FfnPart::Up }.label()
    );
}

#[test]
fn no_two_types_share_a_name() {
    let types: Vec<u32> = (0..300).chain(0x8000..0x8010).collect();
    let names: std::collections::BTreeSet<String> =
        types.iter().map(|t| ggml_type_name(*t)).collect();
    assert_eq!(names.len(), types.len());
    for t in types {
        let by_number = ggml_type_name(t) == format!("type{t}");
        assert_eq!(by_number, block_layout(t).is_none(), "{t}");
    }
    assert_eq!(ggml_type_name(40), "NVFP4_GGUF");
    assert_eq!(ggml_type_name(0x8000), "NVFP4");
}

#[test]
fn both_layouts_of_mxfp4_hold_the_same_weights() {
    let n = 255 * 32;
    let codes: Vec<u8> = (0..n).map(|i| ((i * 7 + i / 32) % 16) as u8).collect();
    let scales: Vec<u8> = (0..255).map(|k| k as u8).collect();
    let mut blocks = Vec::new();
    for (k, e) in scales.iter().enumerate() {
        blocks.push(*e);
        for j in 0..16 {
            blocks.push(codes[32 * k + j] | codes[32 * k + j + 16] << 4);
        }
    }
    let data: Vec<u8> = codes.chunks(2).map(|c| c[0] | c[1] << 4).collect();
    let value = |f: &Factors| {
        f32::from_bits(f.elem) as f64 * f32::from_bits(f.scale) as f64
            * f32::from_bits(f.global) as f64
    };
    let a: Vec<f64> = dequant_mxfp4_ggml_row(&blocks, n).iter().map(value).collect();
    let b: Vec<f64> =
        dequant_mxfp4_ocp(&data, &scales, n).unwrap().iter().map(value).collect();
    assert_eq!(a, b);
}

#[test]
fn nvfp4_blocks_hold_ordinary_products() {
    let mut blocks = Vec::new();
    for k in 0..31u8 {
        let scales: Vec<u8> = (0..4).map(|s| 4 * k + s).collect();
        blocks.extend_from_slice(&scales);
        blocks.extend((0..32u8).map(|j| j.wrapping_mul(37).wrapping_add(k)));
    }
    let n = 31 * 64;
    let got = dequant_nvfp4_ggml_row(&blocks, n);
    for (i, f) in got.iter().enumerate() {
        let blk = i / 64 * 36;
        let s = i % 64 / 16;
        let byte = blocks[blk + 4 + s * 8 + i % 8];
        let code = if i % 16 < 8 { byte & 15 } else { byte >> 4 };
        let want = f32::from_bits(e2m1_to_f32(code)) as f64
            * f32::from_bits(e4m3_to_f32(blocks[blk + s])) as f64;
        assert_eq!(f32::from_bits(f.elem) as f64 * f32::from_bits(f.scale) as f64, want, "{i}");
    }
}

#[test]
fn the_order_of_positions_does_not_matter() {
    let mut there = KlAccumulator::new();
    let mut back = KlAccumulator::new();
    let at = |i: usize| ((((i * 37) % 101) as f64 / 7.0).to_bits(), i % 3 == 0);
    for i in 0..101 {
        let (kl, top1) = at(i);
        there.push(kl, top1);
        let (kl, top1) = at(100 - i);
        back.push(kl, top1);
    }
    assert_eq!(there.finish(), back.finish());
    assert_eq!(there.top1_hits, back.top1_hits);
    assert_eq!(there.top1_hits, 34);
}

#[test]
fn a_quantized_file_keeps_the_alignment_of_its_source() {
    let mut w = GgufWriter::new();
    w.set_alignment(128);
    w.add_kv("general.file_type".into(), GgufValue::U32(1));
    w.add_tensor(TensorSpec { name: "t".into(), dims: vec![2], ggml_type: 0, data: vec![5; 8] });
    let source = w.to_bytes();
    let r = GgufReader::from_bytes(&source).unwrap();
    let keep = Policy { ggml_type: 0, copy_unchanged: true, use_imatrix: false };
    let (out, _) = quantize_file(&r, 7, &[keep], vec![None]).unwrap();
    let b = out.to_bytes();
    let again = GgufReader::from_bytes(&b).unwrap();
    assert_eq!(again.alignment, 128);
    assert_eq!(again.data_offset % 128, 0);
    assert_eq!(again.tensor_bytes(0).unwrap(), &[5u8; 8][..]);
    let keys: Vec<&str> = again.kv.iter().map(|(k, _)| k.as_str()).collect();
    assert_eq!(keys, ["general.file_type", "general.alignment"]);
}

#[test]
fn depths_are_fractions() {
    let layout = ModelLayout {
        arch: "llama".into(),
        n_layers: 4,
        expert_count: 0,
        expert_used: 0,
        shared_count: 0,
        is_moe: false,
    };
    for (name, num, den) in [
        ("token_embd.weight", 0, 1),
        ("blk.0.attn_q.weight", 0, 4),
        ("blk.3.ffn_down.weight", 3, 4),
        ("output.weight", 1, 1),
    ] {
        let d = TensorTag::tag(name, &layout).place.depth;
        assert_eq!((d.num, d.den), (num, den), "{name}");
    }
}

#[test]
fn rows_times_columns_is_the_number_of_elements() {
    for shape in [vec![7u64], vec![2, 3], vec![4, 1, 5], vec![3, 0, 9], vec![0, 2]] {
        let e = StEntry {
            name: "t".into(),
            dtype: StDtype::F32,
            shape: shape.clone(),
            start: 0,
            end: 0,
        };
        let (rows, cols) = e.rows_cols();
        assert_eq!((rows * cols) as u64, e.n_elems(), "{shape:?}");
    }
}

#[test]
fn unpacking_undoes_packing() {
    let codes: Vec<u8> = (0..64u8).map(|i| i.wrapping_mul(11) % 16).collect();
    let adjacent: Vec<u8> = codes.chunks(2).map(|c| c[0] | c[1] << 4).collect();
    assert_eq!(unpack_fp4(&adjacent, 64, 0, NibbleOrder::Adjacent), codes);
    let split: Vec<u8> = codes
        .chunks(16)
        .flat_map(|b| (0..8).map(|j| b[j] | b[j + 8] << 4).collect::<Vec<_>>())
        .collect();
    assert_eq!(unpack_fp4(&split, 64, 16, NibbleOrder::SplitHalf), codes);
}

#[test]
fn a_norm_is_never_quantized() {
    let layout = ModelLayout {
        arch: "llama".into(),
        n_layers: 16,
        expert_count: 0,
        expert_used: 0,
        shared_count: 0,
        is_moe: false,
    };
    for name in [
        "output_norm.weight",
        "output_norm.bias",
        "blk.3.attn_norm.weight",
        "blk.3.attn_norm_2.weight",
        "blk.+12.attn_output_norm.weight",
        "blk.3.attn_k_norm.bias",
        "blk.3.ffn_norm.weight",
        "blk.3.post_ffw_norm_1.weight",
    ] {
        let t = TensorTag::tag(name, &layout);
        assert_eq!(t.role, Role::Norm, "{name}");
        assert!(!t.quantizable, "{name}");
    }
    assert!(TensorTag::tag("blk.3.attn_q.weight", &layout).quantizable);
}

#[test]
fn streaming_writes_what_the_writer_writes() {
    for alignment in [0, 1, 32, 64] {
        let mut w = GgufWriter::new();
        w.set_alignment(alignment);
        w.add_kv("k".into(), GgufValue::String("v".into()));
        for (i, n) in [5usize, 0, 64, 33].into_iter().enumerate() {
            w.add_tensor(TensorSpec {
                name: format!("t{i}"),
                dims: vec![n as u64],
                ggml_type: 24,
                data: vec![i as u8 + 1; n],
            });
        }
        let plans = w
            .tensors
            .iter()
            .map(|t| TensorPlan {
                name: t.name.clone(),
                dims: t.dims.clone(),
                ggml_type: t.ggml_type,
                nbytes: t.data.len() as u64,
            })
            .collect();
        let (mut out, mut s) =
            GgufStream::start(&w.kv, plans, w.alignment, w.version).unwrap();
        while let Some(i) = s.wanted() {
            out.extend(s.provide(w.tensors[i].data.clone()).unwrap());
        }
        assert_eq!(out, w.to_bytes(), "alignment {alignment}");
        assert_eq!(s.total, out.len() as u64);
    }
}
