use requant::common::{fmt_bytes, fmt_shape, parse_bytes, tag_all, type_label, BudgetError};
use requant::gguf::reader::{GgufReader, TensorInfo};
use requant::gguf::value::GgufValue;
use requant::gguf::writer::{GgufWriter, TensorSpec};
use requant::inspect::{bytes_of, context_length, summarize, truncate};
use requant::ir::{ModelLayout, Role, TensorTag};
use requant::quantize::run::{quantize_file, Made, QuantizeFault};
use requant::quantize::{
    dominant_src, plan_step, report, Action, Outcome, Policy, Progress, Step,
};
use requant::search::{
    bytes_by_role, classify, count_searched, must_be_fixed, read_budget, recipe_header, resolve_ladder, settle,
    Chosen, Ladder, Part, SearchError, SearchOpts,
};
use requant::tally::{heaviest, tally, tally_numbers, Entry};

/// Deterministic LCG vector in [-1.5, 1.5).
fn lcg(n: usize) -> Vec<f32> {
    let mut s: u32 = 0x9e3779b9;
    let mut v = Vec::with_capacity(n);
    for _ in 0..n {
        s ^= s << 13;
        s ^= s >> 17;
        s ^= s << 5;
        v.push((s as f32) / (u32::MAX as f32) * 3.0 - 1.5);
    }
    v
}

fn f16_bytes(v: &[f32]) -> Vec<u8> {
    let mut out = Vec::with_capacity(v.len() * 2);
    for &x in v {
        out.extend_from_slice(&half::f16::from_f32(x).to_le_bytes());
    }
    out
}

/// Add an F16 2-D weight tensor [rows, cols] with block-aligned cols.
fn add_f16_weight(w: &mut GgufWriter, name: &str, rows: usize, cols: usize) {
    assert!(cols % 256 == 0, "fixture cols must be k-quant-aligned (256), got {cols}");
    let data = f16_bytes(&lcg(rows * cols));
    w.add_tensor(TensorSpec {
        name: name.into(),
        dims: vec![rows as u64, cols as u64],
        ggml_type: 1, // F16
        data,
    });
}

/// Add an F16 1-D tensor (norm/bias) of length `n`.
fn add_f16_1d(w: &mut GgufWriter, name: &str, n: usize) {
    w.add_tensor(TensorSpec {
        name: name.into(),
        dims: vec![n as u64],
        ggml_type: 1,
        data: f16_bytes(&lcg(n)),
    });
}

fn put(w: &mut GgufWriter, key: &str, v: GgufValue) {
    w.add_kv(key.to_string(), v);
}

fn llama_kv(w: &mut GgufWriter, n_layers: u32, hidden: u32) {
    put(w, "general.architecture", GgufValue::String("llama".to_string()));
    put(w, "general.name", GgufValue::String("requant-e2e-llama".to_string()));
    put(w, "general.file_type", GgufValue::U32(1)); // F16
    put(w, "llama.block_count", GgufValue::U32(n_layers));
    put(w, "llama.embedding_length", GgufValue::U32(hidden));
    put(w, "llama.context_length", GgufValue::U32(128));
    put(w, "llama.attention.head_count", GgufValue::U32(4));
    put(w, "llama.attention.layer_norm_rms_epsilon", GgufValue::F32(1e-5f32.to_bits()));
    put(w, "llama.rope.dimension_count", GgufValue::U32(64));
}

/// A 2-block dense llama with real tensor names. hidden=256 so cols align to 256.
fn build_dense_llama() -> Vec<u8> {
    let mut w = GgufWriter::new();
    llama_kv(&mut w, 2, 256);
    let h = 256usize;
    let inter = 256usize; // keep small; ffn_intermediate
    add_f16_1d(&mut w, "token_embd.weight", h);
    add_f16_1d(&mut w, "output_norm.weight", h);
    add_f16_weight(&mut w, "output.weight", h, h);
    for blk in 0..2u32 {
        let p = format!("blk.{blk}.");
        add_f16_1d(&mut w, &format!("{p}attn_norm.weight"), h);
        add_f16_weight(&mut w, &format!("{p}attn_q.weight"), h, h);
        add_f16_weight(&mut w, &format!("{p}attn_k.weight"), h, h);
        add_f16_weight(&mut w, &format!("{p}attn_v.weight"), h, h);
        add_f16_weight(&mut w, &format!("{p}attn_o.weight"), h, h);
        add_f16_1d(&mut w, &format!("{p}ffn_norm.weight"), h);
        add_f16_weight(&mut w, &format!("{p}ffn_gate.weight"), inter, h);
        add_f16_weight(&mut w, &format!("{p}ffn_up.weight"), inter, h);
        add_f16_weight(&mut w, &format!("{p}ffn_down.weight"), h, inter);
    }
    w.to_bytes()
}

/// A 1-block MoE (qwen2moe arch) with a router + packed routed experts + a shared expert.
fn build_moe() -> Vec<u8> {
    let mut w = GgufWriter::new();
    put(&mut w, "general.architecture", GgufValue::String("qwen2moe".to_string()));
    put(&mut w, "general.name", GgufValue::String("requant-e2e-moe".to_string()));
    put(&mut w, "general.file_type", GgufValue::U32(1));
    put(&mut w, "qwen2moe.block_count", GgufValue::U32(1));
    put(&mut w, "qwen2moe.embedding_length", GgufValue::U32(256));
    put(&mut w, "qwen2moe.expert_count", GgufValue::U32(4));
    put(&mut w, "qwen2moe.expert_used_count", GgufValue::U32(2));
    put(&mut w, "qwen2moe.expert_shared_count", GgufValue::U32(1));
    let h = 256usize;
    let inter = 256usize;
    let n_exp = 4usize;
    add_f16_1d(&mut w, "token_embd.weight", h);
    add_f16_1d(&mut w, "output_norm.weight", h);
    add_f16_weight(&mut w, "output.weight", h, h);
    let p = "blk.0.";
    add_f16_1d(&mut w, &format!("{p}attn_norm.weight"), h);
    add_f16_weight(&mut w, &format!("{p}attn_q.weight"), h, h);
    add_f16_weight(&mut w, &format!("{p}attn_k.weight"), h, h);
    add_f16_weight(&mut w, &format!("{p}attn_v.weight"), h, h);
    add_f16_weight(&mut w, &format!("{p}attn_o.weight"), h, h);
    add_f16_1d(&mut w, &format!("{p}ffn_norm.weight"), h);
    // Router (gate logits) — must be protected.
    add_f16_weight(&mut w, &format!("{p}ffn_gate_inp.weight"), n_exp, h);
    // Packed routed experts: [n_exp*out, in].
    add_f16_weight(&mut w, &format!("{p}ffn_gate_exps.weight"), n_exp * inter, h);
    add_f16_weight(&mut w, &format!("{p}ffn_up_exps.weight"), n_exp * inter, h);
    add_f16_weight(&mut w, &format!("{p}ffn_down_exps.weight"), n_exp * h, inter);
    // Shared expert.
    add_f16_weight(&mut w, &format!("{p}ffn_gate_shexp.weight"), inter, h);
    add_f16_weight(&mut w, &format!("{p}ffn_up_shexp.weight"), inter, h);
    add_f16_weight(&mut w, &format!("{p}ffn_down_shexp.weight"), h, inter);
    w.to_bytes()
}

fn tag_map(
    reader: &GgufReader<'_>,
    layout: &ModelLayout,
) -> std::collections::HashMap<String, Role> {
    reader
        .tensors
        .iter()
        .map(|t| (t.name.clone(), TensorTag::tag(&t.name, layout).role))
        .collect()
}

#[test]
fn dense_llama_roles_tagged_correctly() {
    let bytes = build_dense_llama();
    let reader = GgufReader::from_bytes(&bytes).unwrap();
    let layout = ModelLayout::from_kv(&reader.kv).unwrap();
    assert_eq!(layout.arch, "llama");
    assert_eq!(layout.n_layers, 2);
    assert!(!layout.is_moe);
    let roles = tag_map(&reader, &layout);
    assert_eq!(roles["token_embd.weight"], Role::Embedding);
    assert_eq!(roles["output.weight"], Role::LmHead);
    assert_eq!(roles["output_norm.weight"], Role::Norm);
    assert_eq!(roles["blk.0.attn_norm.weight"], Role::Norm);
    assert_eq!(roles["blk.0.attn_q.weight"], Role::AttnQ);
    assert_eq!(roles["blk.0.attn_o.weight"], Role::AttnO);
    assert_eq!(roles["blk.0.ffn_gate.weight"], Role::FfnGate);
    assert_eq!(roles["blk.1.ffn_down.weight"], Role::FfnDown);
    assert_eq!(roles["blk.1.attn_v.weight"], Role::AttnV);
    assert_eq!(tag_all(&reader, &layout).1, 0);
    assert_eq!(context_length(&reader, "llama"), Some(128));
}

#[test]
fn moe_roles_tagged_and_router_identified() {
    let bytes = build_moe();
    let reader = GgufReader::from_bytes(&bytes).unwrap();
    let layout = ModelLayout::from_kv(&reader.kv).unwrap();
    assert!(layout.is_moe);
    assert_eq!(layout.expert_count, 4);
    assert_eq!(layout.expert_used, 2);
    let roles = tag_map(&reader, &layout);
    assert_eq!(roles["blk.0.ffn_gate_inp.weight"], Role::Router);
    assert!(roles["blk.0.ffn_gate_inp.weight"].is_router());
    assert!(matches!(roles["blk.0.ffn_gate_exps.weight"], Role::RoutedExpert { .. }));
    assert!(matches!(roles["blk.0.ffn_down_exps.weight"], Role::RoutedExpert { .. }));
    assert!(matches!(roles["blk.0.ffn_gate_shexp.weight"], Role::SharedExpert(_)));
}

fn policy(ggml_type: u32) -> Policy {
    Policy { ggml_type, copy_unchanged: false, use_imatrix: false }
}

#[test]
fn an_output_file_keeps_what_is_not_changed() {
    let bytes = build_dense_llama();
    let reader = GgufReader::from_bytes(&bytes).unwrap();
    let mut policies = Vec::new();
    let mut made = Vec::new();
    for t in &reader.tensors {
        let p = if t.name == "blk.0.attn_q.weight" {
            policy(13)
        } else if t.name == "blk.0.attn_k.weight" {
            policy(0)
        } else {
            Policy { ggml_type: 12, copy_unchanged: true, use_imatrix: false }
        };
        made.push(match plan_step(t, p).unwrap() {
            Step::Copy => None,
            Step::Convert { dst, .. } => {
                Some(Made { ggml_type: dst, data: vec![7u8; 256 * 256 * 4] })
            }
            Step::Block { want, rows, cols, .. } => {
                assert_eq!((rows, cols), (256, 256));
                Some(Made { ggml_type: want, data: vec![9u8; 256 * 176] })
            }
            Step::NoColumns { .. } => panic!("every tensor has columns"),
        });
        policies.push(p);
    }
    let (w, outcomes) = quantize_file(&reader, 12, &policies, made).unwrap();
    let out = w.to_bytes();
    let r = GgufReader::from_bytes(&out).unwrap();
    assert_eq!(r.get("general.file_type").unwrap().as_u32(), Some(12));
    assert_eq!(r.get("llama.block_count").unwrap().as_u32(), Some(2));
    for (i, t) in reader.tensors.iter().enumerate() {
        assert_eq!(r.tensors[i].name, t.name);
        match t.name.as_str() {
            "blk.0.attn_q.weight" => {
                assert_eq!(r.tensors[i].ggml_type, 13);
                assert_eq!(r.tensor_bytes(i).unwrap(), &vec![9u8; 256 * 176][..]);
            }
            "blk.0.attn_k.weight" => assert_eq!(r.tensors[i].ggml_type, 0),
            _ => {
                assert_eq!(r.tensors[i].ggml_type, 1);
                assert_eq!(r.tensor_bytes(i).unwrap(), reader.tensor_bytes(i).unwrap());
            }
        }
    }
    let sum = report(&outcomes);
    assert_eq!(sum.dominant_src, 1);
    assert_eq!(dominant_src(&outcomes), 1);
    assert_eq!((sum.n_requant, sum.n_fp4_src), (0, 0));
    let types: Vec<u32> = sum.by_type.iter().map(|t| t.key).collect();
    assert_eq!(types, vec![0, 1, 13]);
    assert!(out.len() < bytes.len() + 256 * 256 * 2);
}

#[test]
fn a_tensor_that_cannot_be_requantized_is_named() {
    let mut w = GgufWriter::new();
    put(&mut w, "general.architecture", GgufValue::String("x".into()));
    for name in ["first", "second"] {
        w.add_tensor(TensorSpec {
            name: name.into(),
            dims: vec![2, 256],
            ggml_type: 1,
            data: vec![0; 1024],
        });
    }
    w.add_tensor(TensorSpec { name: "scalar".into(), dims: vec![], ggml_type: 1, data: vec![0; 2] });
    let bytes = w.to_bytes();
    let r = GgufReader::from_bytes(&bytes).unwrap();
    let keep = Policy { ggml_type: 12, copy_unchanged: true, use_imatrix: false };
    let run = |p: [Policy; 3], made: Vec<Option<Made>>| {
        let e = quantize_file(&r, 12, &p, made).unwrap_err();
        (e.tensor, e.kind)
    };
    assert_eq!(
        run([keep, policy(0x8001), keep], vec![None, None, None]),
        ("second".to_string(), QuantizeFault::NotGguf(0x8001))
    );
    assert_eq!(
        run([keep, policy(12), policy(12)], vec![None, None, None]),
        ("second".to_string(), QuantizeFault::NotMade)
    );
    let one = Some(Made { ggml_type: 12, data: vec![0; 288] });
    assert_eq!(
        run([keep, policy(12), policy(12)], vec![None, one, None]),
        ("scalar".to_string(), QuantizeFault::NoColumns)
    );
    let cut = GgufReader::from_bytes(&bytes[..bytes.len() - 2000]).unwrap();
    let e = quantize_file(&cut, 12, &[keep, keep, keep], vec![None, None, None]).unwrap_err();
    assert_eq!(e.kind, QuantizeFault::Tensor(requant::gguf::value::GgufError::PastEnd));
}

#[test]
fn steps_follow_source_and_target() {
    let t = |ty: u32| TensorInfo { name: "t".into(), dims: vec![2, 256], ggml_type: ty, offset: 0 };
    assert_eq!(plan_step(&t(1), policy(1)).unwrap(), Step::Copy);
    assert_eq!(plan_step(&t(1), policy(0)).unwrap(), Step::Convert { dst: 0, dequantize: false });
    assert_eq!(plan_step(&t(8), policy(0)).unwrap(), Step::Convert { dst: 0, dequantize: true });
    assert_eq!(
        plan_step(&t(8), policy(12)).unwrap(),
        Step::Block { want: 12, rows: 2, cols: 256, dequantize: true, use_imatrix: false }
    );
    assert_eq!(plan_step(&t(1), policy(0x8000)).unwrap_err(), 0x8000);
    let mut p = Progress::new();
    assert!(p.warn_once(true));
    assert!(!p.warn_once(true));
    assert!(!p.warn_once(false));
    for i in 1..=70usize {
        assert_eq!(p.note_fallback(12, (6, true)), i <= 8 || i % 32 == 0, "{i}");
    }
    assert!(!p.note_fallback(12, (12, true)));
    assert!(!p.note_fallback(12, (12, false)));
    assert_eq!(p.n_fallback, 70);
    let r = report(&[Outcome {
        src_type: 39,
        dst_type: 12,
        src_bytes: 10,
        dst_bytes: 4,
        action: Action::Requant,
    }]);
    assert_eq!((r.n_requant, r.n_fp4_src, r.src_total, r.dst_total), (1, 1, 10, 4));
}

#[test]
fn sizes_read_as_they_are_written() {
    assert_eq!(fmt_bytes(0), "0 B");
    assert_eq!(fmt_bytes(1023), "1023 B");
    assert_eq!(fmt_bytes(1024), "1.00 KiB");
    assert_eq!(fmt_bytes(1536), "1.50 KiB");
    assert_eq!(fmt_bytes(u64::MAX), format!("{:.2} TiB", u64::MAX as f64 / 1024f64.powi(4)));
    let mut x = 1u64;
    for i in 0..60 {
        x = x.wrapping_mul(3) + i;
        let mut v = x as f64;
        let mut u = 0;
        while v >= 1024.0 && u < 4 {
            v /= 1024.0;
            u += 1;
        }
        let want = if u == 0 {
            format!("{x} B")
        } else {
            format!("{v:.2} {}", ["B", "KiB", "MiB", "GiB", "TiB"][u])
        };
        assert_eq!(fmt_bytes(x), want);
    }
    assert_eq!(fmt_shape(&[]), "scalar");
    assert_eq!(fmt_shape(&[4, 32]), "4×32");
    assert_eq!(type_label(12), "Q4_K");
}

#[test]
fn budgets_parse() {
    assert_eq!(parse_bytes("12G").unwrap(), 12 << 30);
    assert_eq!(parse_bytes("4.5GiB").unwrap(), (9u64 << 30) / 2);
    assert_eq!(parse_bytes("14000").unwrap(), 14000);
    assert_eq!(parse_bytes(" 1.1 kb ").unwrap(), (1.1f64 * 1024.0) as u64);
    assert_eq!(parse_bytes(".5K").unwrap(), 512);
    assert_eq!(parse_bytes("99999999999999999999T").unwrap(), u64::MAX);
    assert_eq!(parse_bytes("").unwrap_err(), BudgetError::Empty);
    assert_eq!(parse_bytes("G").unwrap_err(), BudgetError::NotANumber);
    assert_eq!(parse_bytes("1.2.3G").unwrap_err(), BudgetError::NotANumber);
    assert_eq!(parse_bytes("5X").unwrap_err(), BudgetError::UnknownUnit);
    for s in ["0.1", "0.3G", "1.0000000000000001T", "123456789.987654321M", "9007199254740993"] {
        let split = s.find(|c: char| c.is_ascii_alphabetic()).unwrap_or(s.len());
        let m = match &s[split..] {
            "G" => 1u64 << 30,
            "M" => 1 << 20,
            "T" => 1 << 40,
            _ => 1,
        };
        let want = (s[..split].parse::<f64>().unwrap() * m as f64) as u64;
        assert_eq!(parse_bytes(s).unwrap(), want, "{s}");
    }
}

#[test]
fn ladder_presets_are_known_and_the_names_of_a_list_are_kept() {
    assert!(matches!(resolve_ladder(None), Ladder::KQuant));
    assert!(matches!(resolve_ladder(Some("kquant")), Ladder::KQuant));
    assert!(matches!(resolve_ladder(Some("iquant")), Ladder::IQuant));
    assert!(matches!(resolve_ladder(Some("full")), Ladder::Full));
    assert!(matches!(resolve_ladder(Some("blockfloat")), Ladder::BlockFloat));
    assert!(matches!(resolve_ladder(Some(" FP4 ")), Ladder::BlockFloat));
    for list in ["Q8_0,Q4_K,Q6_K", "IQ4_XS,IQ1_S,IQ3_S", "Q4_K,NOPE"] {
        match resolve_ladder(Some(list)) {
            Ladder::Named(names) => {
                assert_eq!(names, list.split(',').map(String::from).collect::<Vec<_>>())
            }
            _ => panic!("a list was expected"),
        }
    }
}

fn opts(budget: Option<&str>, pareto: bool) -> SearchOpts {
    let mut o = SearchOpts::basic("m.gguf", "1", None, None, None, false, None);
    o.budget = budget.map(String::from);
    o.pareto = pareto;
    o
}

#[test]
fn a_search_needs_a_budget_or_the_whole_front() {
    assert_eq!(read_budget(&opts(Some("2K"), false)).unwrap(), Some(2048));
    assert_eq!(read_budget(&opts(None, true)).unwrap(), None);
    assert!(matches!(read_budget(&opts(None, false)).unwrap_err(), SearchError::NoBudget));
    assert!(matches!(
        read_budget(&opts(Some("x"), false)).unwrap_err(),
        SearchError::Budget(BudgetError::NotANumber)
    ));
    assert!(matches!(
        count_searched(&[Part::Fixed(1)]).unwrap_err(),
        SearchError::NothingToSearch
    ));
    assert_eq!(count_searched(&[Part::Fixed(1), Part::Searched]).unwrap(), 1);
}

#[test]
fn protected_tensors_have_fixed_sizes() {
    let t = TensorInfo { name: "t".into(), dims: vec![2, 256], ggml_type: 1, offset: 0 };
    assert_eq!(classify(&t, true, policy(12)), Part::Searched);
    assert_eq!(classify(&t, false, policy(12)), Part::Fixed(2 * 144));
    assert_eq!(classify(&t, true, policy(0)), Part::Fixed(2048));
    let keep = Policy { ggml_type: 0, copy_unchanged: true, use_imatrix: false };
    assert_eq!(classify(&t, true, keep), Part::Fixed(1024));
    assert_eq!(settle(&t, 512, 3), Part::Searched);
    assert_eq!(settle(&t, 0, 3), Part::Fixed(1024));
    assert_eq!(settle(&t, 512, 0), Part::Fixed(1024));
    // A tensor that is searched may have more elements than can be counted.
    let huge = TensorInfo { name: "h".into(), dims: vec![u64::MAX, 256], ggml_type: 1, offset: 0 };
    assert!(!must_be_fixed(&huge, true, policy(12)));
    assert_eq!(classify(&huge, true, policy(12)), Part::Searched);
    assert!(must_be_fixed(&huge, false, policy(12)));
}

#[test]
fn a_recipe_says_where_it_came_from() {
    let h = recipe_header("m.gguf", 2048, 1536, 1024, 3, 2, "proxy (Relative)", "1.000000e0");
    assert_eq!(
        h,
        "Auto-searched recipe from `requant search`\n\
         source     : m.gguf\n\
         budget     : 2.00 KiB\n\
         allocated  : 1.50 KiB\n\
         fixed      : 1.00 KiB\n\
         searchable : 3 tensors, 2 upgraded above floor\n\
         cost source: proxy (Relative)\n\
         total cost : 1.000000e0"
    );
    let chosen = vec![
        Chosen { role: "a".into(), points: vec![10, 20], choice: 1, fixed_bytes: 5 },
        Chosen { role: "b".into(), points: vec![], choice: 0, fixed_bytes: 5 },
        Chosen { role: "a".into(), points: vec![10], choice: 0, fixed_bytes: 5 },
    ];
    let by_role = bytes_by_role(&chosen);
    let a = by_role.get("a").unwrap();
    assert_eq!((a.count, a.first), (2, 30));
    assert_eq!(by_role.get("b").unwrap().first, 5);
}

#[test]
fn a_summary_counts_every_tensor() {
    let bytes = build_moe();
    let reader = GgufReader::from_bytes(&bytes).unwrap();
    let layout = ModelLayout::from_kv(&reader.kv).unwrap();
    let (tags, _) = tag_all(&reader, &layout);
    let s = summarize(&reader.tensors, &tags).unwrap();
    let elems: u64 = reader.tensors.iter().map(|t| t.n_elems()).sum();
    assert_eq!((s.total_elems, s.total_bytes), (elems as u128, 2 * elems as u128));
    assert_eq!(s.roles.get("norm").unwrap().count, 3);
    assert_eq!(s.roles.get("router").unwrap().second, 4 * 256);
}

#[test]
fn long_names_are_cut() {
    assert_eq!(truncate("abcdef", 3), "abc");
    assert_eq!(truncate("abc", 3), "abc");
    assert_eq!(truncate("grüße", 4), "grü");
}

#[test]
fn tallies_add_up() {
    let e = |key: &str, first: u64| Entry { key: key.into(), first, second: 1 };
    let t = tally(&[e("x", 1), e("y", 2), e("x", u64::MAX)]);
    let x = t.get("x").unwrap();
    assert_eq!((x.count, x.first, x.second), (2, u64::MAX as u128 + 1, 2));
    let n = tally_numbers(&[(5, 1), (3, 2), (5, 10)]);
    let got: Vec<(u32, usize, u128)> = n.iter().map(|t| (t.key, t.count, t.sum)).collect();
    assert_eq!(got, vec![(3, 1, 2), (5, 2, 11)]);
    // Of two equally heavy ones the last in order.
    assert_eq!(heaviest(&[(7, 4), (2, 4)]), 7);
    assert_eq!(heaviest(&[]), 0);
}
