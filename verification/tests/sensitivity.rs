use requant::gguf::reader::{GgufReader, TensorInfo};
use requant::gguf::value::GgufValue;
use requant::gguf::writer::{GgufWriter, TensorSpec};
use requant::ir::{Depth, FfnPart, ModelLayout, Place, Role, TensorTag};
use requant::sensitivity::candidates::{
    candidate_id, candidate_step, count_candidates, list_candidates, plan_candidate,
    start_candidate, Candidate, CandidateError, CandidateStep,
};
use requant::sensitivity::groups::{build_groups, GroupError};
use requant::sensitivity::options::{
    default_ladder, parse_grouping, parse_ladder, parse_roles, plan_of, SensitivityOpts,
    SensitivityPlan,
};
use requant::sensitivity::table::{
    score_entries, CandidateScore, GroupInfo, SensitivityEntry, SensitivityPoint, SensitivityTable,
    SENSITIVITY_SCHEMA,
};
use requant::sensitivity::{sanitize, Grouping};

fn tag(role: Role, num: u32, den: u32) -> TensorTag {
    TensorTag { role, place: Place { depth: Depth { num, den }, expert: None }, quantizable: true }
}

/// The key of a tensor at this depth.
fn key(g: Grouping, t: &TensorTag, depth: f32, name: &str) -> String {
    let buckets = match g {
        Grouping::PerRoleDepth { buckets } => buckets.max(1),
        _ => 1,
    };
    g.key(t, (depth * buckets as f32) as usize, name)
}

#[test]
fn grouping_spellings_parse() {
    assert_eq!(parse_grouping(None).unwrap(), Grouping::PerRole);
    assert_eq!(parse_grouping(Some("tensor")).unwrap(), Grouping::PerTensor);
    assert_eq!(parse_grouping(Some("Role")).unwrap(), Grouping::PerRole);
    assert_eq!(
        parse_grouping(Some("role-depth:8")).unwrap(),
        Grouping::PerRoleDepth { buckets: 8 }
    );
    assert_eq!(
        parse_grouping(Some("role-depth")).unwrap(),
        Grouping::PerRoleDepth { buckets: 4 }
    );
    assert!(parse_grouping(Some("nonsense")).is_err());
}

#[test]
fn a_ladder_is_split_and_its_names_are_kept() {
    assert_eq!(parse_ladder(Some("Q4_K,Q6_K")), vec!["Q4_K", "Q6_K"]);
    assert_eq!(parse_ladder(Some("nvfp4,fp8")), vec!["nvfp4", "fp8"]);
    assert_eq!(parse_ladder(Some("Q4_K,NOPE")), vec!["Q4_K", "NOPE"]);
}

#[test]
fn grouping_keys_are_what_they_claim() {
    let t = tag(Role::AttnQ, 4, 5);
    assert_eq!(
        key(Grouping::PerTensor, &t, 0.8, "blk.7.attn_q.weight"),
        "blk.7.attn_q.weight"
    );
    assert_eq!(key(Grouping::PerRole, &t, 0.8, "blk.7.attn_q.weight"), "attn_q");
    assert_eq!(
        key(Grouping::PerRoleDepth { buckets: 4 }, &t, 0.8, "blk.7.attn_q.weight"),
        "attn_q@d3/4"
    );
    // Depth exactly 1.0 must not fall off the end of the bucket array.
    let deep = tag(Role::RoutedExpert { idx: 0, part: FfnPart::Down }, 1, 1);
    assert_eq!(
        key(Grouping::PerRoleDepth { buckets: 4 }, &deep, 1.0, "x"),
        "routed_expert.down@d3/4"
    );
    assert_eq!(key(Grouping::PerRoleDepth { buckets: 0 }, &deep, 1.0, "x"), "routed_expert.down@d0/1");
}

#[test]
fn sanitize_makes_tensor_names_into_filenames() {
    assert_eq!(sanitize("blk.7.attn_q.weight"), "blk.7.attn_q.weight");
    assert_eq!(sanitize("routed_expert.down@d3/4"), "routed_expert.down_d3_4");
}

#[test]
fn sanitizing_twice_changes_nothing() {
    for s in ["a b/c\\d", "grüße", "", "-._", "x@y@z"] {
        assert_eq!(sanitize(&sanitize(s)), sanitize(s));
    }
    assert_eq!(sanitize("grüße"), "gr__e");
}

fn entry(key: &str, members: &[&str]) -> SensitivityEntry {
    SensitivityEntry {
        key: key.into(),
        role: key.into(),
        depth: 0.5f32.to_bits(),
        members: members.iter().map(|m| m.to_string()).collect(),
        source_bytes: 1024,
        points: vec![SensitivityPoint {
            bits: "Q4_K".into(),
            ggml_type: 12,
            type_label: "Q4_K".into(),
            bytes: 288,
            kl: 0.01f64.to_bits(),
            kl_p99: Some(0.1f64.to_bits()),
            top1_agreement: Some(0.99f64.to_bits()),
            ppl: None,
        }],
    }
}

fn table(schema: u32, entries: Vec<SensitivityEntry>) -> SensitivityTable {
    SensitivityTable {
        schema,
        source: "m.gguf".into(),
        corpus: "c.txt".into(),
        evaluator: "test".into(),
        grouping: Grouping::PerRole,
        reference_ppl: Some(16.25f64.to_bits()),
        entries,
    }
}

#[test]
fn a_table_answers_for_tensors_and_roles_and_a_stale_one_is_refused() {
    let t = table(SENSITIVITY_SCHEMA, vec![entry("attn_q", &["blk.0.attn_q.weight"])]);
    let back = t.accept().unwrap();
    assert_eq!(back.entries.len(), 1);
    assert_eq!(back.entries[0].points[0].kl, 0.01f64.to_bits());
    // Lookup falls back from tensor name to role.
    assert!(back.lookup("blk.0.attn_q.weight", "attn_q").is_some());
    assert!(back.lookup("blk.9.attn_q.weight", "attn_q").is_some());
    assert!(back.lookup("blk.9.ffn_up.weight", "ffn_up").is_none());
    assert_eq!(table(99, vec![]).accept().unwrap_err().schema, 99);
}

#[test]
fn a_tensor_comes_before_its_group_and_its_role() {
    let t = table(
        SENSITIVITY_SCHEMA,
        vec![entry("attn_q", &[]), entry("g", &["blk.1.attn_q.weight"]), entry("blk.2.attn_q.weight", &[])],
    );
    assert_eq!(t.lookup("blk.2.attn_q.weight", "attn_q").unwrap().key, "blk.2.attn_q.weight");
    assert_eq!(t.lookup("blk.1.attn_q.weight", "attn_q").unwrap().key, "g");
    assert_eq!(t.lookup("blk.3.attn_q.weight", "attn_q").unwrap().key, "attn_q");
}

fn candidate(group: &str, bits: &str, group_bytes: u64) -> Candidate {
    Candidate {
        id: candidate_id(group, bits),
        group: group.into(),
        bits: bits.into(),
        ggml_type: 12,
        path: format!("{group}.gguf"),
        group_bytes,
    }
}

#[test]
fn points_grow_in_bytes() {
    let groups = vec![
        GroupInfo { key: "a".into(), role: "a".into(), depth: 0, members: vec![], source_bytes: 9 },
        GroupInfo { key: "b".into(), role: "b".into(), depth: 0, members: vec![], source_bytes: 9 },
    ];
    let candidates = vec![
        candidate("a", "Q8_0", 30),
        candidate("a", "Q2_K", 10),
        candidate("b", "Q2_K", 5),
        candidate("a", "Q4_K", 20),
    ];
    let scores: Vec<CandidateScore> = (0..4)
        .map(|i| CandidateScore {
            kl: (i as f64).to_bits(),
            kl_p99: 0,
            top1_agreement: 0,
            ppl: None,
        })
        .collect();
    let e = score_entries(&groups, &candidates, &scores);
    let a: Vec<(&str, u64)> = e[0].points.iter().map(|p| (p.bits.as_str(), p.bytes)).collect();
    assert_eq!(a, vec![("Q2_K", 10), ("Q4_K", 20), ("Q8_0", 30)]);
    assert_eq!(e[0].points[1].kl, 3.0f64.to_bits());
    assert_eq!(e[0].points[0].type_label, "Q4_K");
    assert_eq!(e[1].points.len(), 1);
}

fn tensor(name: &str, dims: &[u64], ggml_type: u32) -> TensorInfo {
    TensorInfo { name: name.into(), dims: dims.to_vec(), ggml_type, offset: 0 }
}

fn layout() -> ModelLayout {
    ModelLayout {
        arch: "llama".into(),
        n_layers: 2,
        expert_count: 0,
        expert_used: 0,
        shared_count: 0,
        is_moe: false,
    }
}

#[test]
fn groups_gather_what_can_be_measured() {
    let tensors = vec![
        tensor("blk.1.attn_q.weight", &[4, 256], 1),
        tensor("blk.0.attn_norm.weight", &[256], 1),
        tensor("blk.0.attn_q.weight", &[4, 256], 1),
        tensor("blk.0.attn_k.weight", &[4, 256], 12),
        tensor("blk.0.ffn_up.weight", &[8, 256], 0),
    ];
    let g = build_groups(&tensors, &layout(), Grouping::PerRole, &[0; 5], &None).unwrap();
    let keys: Vec<&str> = g.iter().map(|x| x.key.as_str()).collect();
    assert_eq!(keys, vec!["attn_q", "ffn_up"]);
    assert_eq!(g[0].members, vec![0, 2]);
    assert_eq!(g[0].source_bytes, 2 * 4 * 256 * 2);
    let only = Some(vec!["ffn_up".to_string()]);
    let g = build_groups(&tensors, &layout(), Grouping::PerTensor, &[0; 5], &only).unwrap();
    assert_eq!(g.len(), 1);
    assert_eq!(g[0].key, "blk.0.ffn_up.weight");
    let none = Some(vec!["router".to_string()]);
    assert!(matches!(
        build_groups(&tensors, &layout(), Grouping::PerRole, &[0; 5], &none).unwrap_err(),
        GroupError::Empty
    ));
}

#[test]
fn a_candidate_changes_only_its_group() {
    let tensors = vec![
        tensor("a", &[4, 256], 1),
        tensor("b", &[4, 256], 1),
        tensor("c", &[4, 32], 1),
    ];
    let p = plan_candidate(&tensors, &[1, 2], 12, &[12, 8]).unwrap();
    assert_eq!(p.targets, vec![1, 12, 8]);
    assert_eq!(p.group_bytes, 4 * 144 + 4 * 34);
    assert_eq!(p.ggml_type, 8);
    assert_eq!(p.plans[0].nbytes, 4 * 256 * 2);
    assert_eq!(p.plans[1].nbytes, 4 * 144);
    match plan_candidate(&tensors, &[2], 12, &[12]).unwrap_err() {
        CandidateError::Tensor(e) => assert_eq!(e.tensor, "c"),
        _ => panic!("the tensor was to be named"),
    }
    match plan_candidate(&tensors, &[0, 1], 0x8000, &[12, 0x8000]).unwrap_err() {
        CandidateError::NotGguf { tensor, ggml_type } => {
            assert_eq!((tensor.as_str(), ggml_type), ("b", 0x8000))
        }
        _ => panic!("the type was to be refused"),
    }
    assert_eq!(candidate_id("routed_expert.down@d3/4", "Q4_K"), "routed_expert.down_d3_4@Q4_K");
    assert_eq!(count_candidates(10, 6, Some(60)).unwrap(), 60);
    let many = count_candidates(10, 6, Some(59)).unwrap_err();
    assert_eq!((many.total, many.cap), (60, 59));
    assert_eq!(
        list_candidates(2, 3, Some(6)).unwrap(),
        vec![(0, 0), (0, 1), (0, 2), (1, 0), (1, 1), (1, 2)]
    );
    assert_eq!(list_candidates(2, 3, Some(5)).unwrap_err().total, 6);
    assert_eq!(list_candidates(2, 0, None).unwrap(), vec![]);
}

#[test]
fn a_written_candidate_has_the_bytes_of_the_model_but_for_its_group() {
    let mut w = GgufWriter::new();
    w.set_alignment(64);
    w.add_kv("general.architecture".into(), GgufValue::String("llama".into()));
    for (k, name) in ["a", "b", "c"].into_iter().enumerate() {
        w.add_tensor(TensorSpec {
            name: name.into(),
            dims: vec![1, 32],
            ggml_type: 1,
            data: vec![k as u8 + 1; 64],
        });
    }
    let source = w.to_bytes();
    let r = GgufReader::from_bytes(&source).unwrap();
    let c = plan_candidate(&r.tensors, &[1], 8, &[8]).unwrap();
    let (mut out, mut s) = start_candidate(&r, c.plans).unwrap();
    while let Some(i) = s.wanted() {
        let data = match candidate_step(&r, &c.targets, i).unwrap() {
            CandidateStep::Copy(b) => b.to_vec(),
            CandidateStep::Quantize { ggml_type, rows, cols } => {
                assert_eq!((i, ggml_type, rows, cols), (1, 8, 1, 32));
                vec![9; 34]
            }
        };
        out.extend(s.provide(data).unwrap());
    }
    let again = GgufReader::from_bytes(&out).unwrap();
    assert_eq!((again.alignment, again.version), (64, r.version));
    assert_eq!(again.kv.len(), r.kv.len());
    for i in [0, 2] {
        assert_eq!(again.tensors[i].ggml_type, 1);
        assert_eq!(again.tensor_bytes(i).unwrap(), r.tensor_bytes(i).unwrap());
    }
    assert_eq!(again.tensors[1].ggml_type, 8);
    assert_eq!(again.tensor_bytes(1).unwrap(), &[9u8; 34][..]);
    // Data that are cut off cannot be copied.
    let short = GgufReader::from_bytes(&source[..source.len() - 64]).unwrap();
    assert!(candidate_step(&short, &[1, 1, 1], 2).is_err());
}

/// The metadata of a candidate of `source`, and those of `source` itself.
fn candidate_kv(source: &[u8]) -> (Vec<(String, GgufValue)>, Vec<(String, GgufValue)>) {
    let r = GgufReader::from_bytes(source).unwrap();
    let c = plan_candidate(&r.tensors, &[1], 8, &[8]).unwrap();
    let (mut out, mut s) = start_candidate(&r, c.plans).unwrap();
    // All bytes up to the tensor headers are those of the source.
    let changed = out.iter().zip(source).position(|(a, b)| a != b).unwrap();
    assert_eq!(out.len(), r.data_offset as usize);
    assert_eq!(out[changed], 8);
    while let Some(i) = s.wanted() {
        let data = match candidate_step(&r, &c.targets, i).unwrap() {
            CandidateStep::Copy(b) => b.to_vec(),
            CandidateStep::Quantize { .. } => vec![9; 34],
        };
        out.extend(s.provide(data).unwrap());
    }
    assert_eq!(s.total as usize, out.len());
    let again = GgufReader::from_bytes(&out).unwrap();
    assert_eq!((again.alignment, again.version), (r.alignment, r.version));
    assert_eq!(again.tensor_bytes(0).unwrap(), r.tensor_bytes(0).unwrap());
    (again.kv, r.kv)
}

fn stating(alignment: u32, first: bool) -> Vec<u8> {
    let mut w = GgufWriter::new();
    w.set_alignment(alignment as u64);
    if first {
        w.add_kv("general.alignment".into(), GgufValue::U32(alignment));
    }
    w.add_kv("general.architecture".into(), GgufValue::String("llama".into()));
    if !first {
        w.add_kv("general.alignment".into(), GgufValue::U32(alignment));
    }
    w.add_kv("llama.block_count".into(), GgufValue::U32(1));
    for (k, name) in ["a", "b"].into_iter().enumerate() {
        w.add_tensor(TensorSpec {
            name: name.into(),
            dims: vec![1, 32],
            ggml_type: 1,
            data: vec![k as u8 + 1; 64],
        });
    }
    w.to_bytes()
}

#[test]
fn a_candidate_keeps_a_stated_default_alignment() {
    let (kept, had) = candidate_kv(&stating(32, false));
    assert_eq!(had.len(), 3);
    assert_eq!(had[1].0, "general.alignment");
    assert_eq!(format!("{kept:?}"), format!("{had:?}"));
}

#[test]
fn a_candidate_keeps_an_alignment_that_is_not_the_last_pair() {
    let (kept, had) = candidate_kv(&stating(64, true));
    assert_eq!(had.len(), 3);
    assert_eq!(had[0].0, "general.alignment");
    assert_eq!(format!("{kept:?}"), format!("{had:?}"));
}

#[test]
fn plans_have_their_defaults() {
    let p = SensitivityPlan::new("m", "c", "w");
    assert_eq!(p.ladder, default_ladder());
    assert_eq!(default_ladder(), vec!["Q2_K", "Q3_K", "Q4_K", "Q5_K", "Q6_K", "Q8_0"]);
    assert_eq!((p.grouping, p.max_candidates, p.keep_candidates), (Grouping::PerRole, Some(256), false));
    let mut opts = SensitivityOpts {
        input: "m".into(),
        corpus: "c".into(),
        output: "o".into(),
        work_dir: None,
        imatrix: None,
        grouping: Some("tensor".into()),
        ladder: Some("Q4_K".into()),
        roles: Some("attn_q, ffn_up".into()),
        max_candidates: None,
        keep_candidates: false,
        logits_dir: Some("d".into()),
        raw_vocab: None,
        llama_args: vec![],
    };
    let p = plan_of(&opts, "w").unwrap();
    assert_eq!(p.grouping, Grouping::PerTensor);
    assert_eq!(p.ladder, vec!["Q4_K"]);
    assert_eq!(p.roles, Some(vec!["attn_q".to_string(), "ffn_up".to_string()]));
    assert!(p.keep_candidates);
    opts.grouping = Some("x".into());
    assert_eq!(plan_of(&opts, "w").unwrap_err().name, "x");
    assert_eq!(parse_roles(" a ,b"), vec!["a", "b"]);
}
