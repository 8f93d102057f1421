use requant::evaluator::{
    corpus_of, LlamaCppEvaluator, LogitDumpEvaluator, Reference, DEFAULT_CORPUS,
};
use requant::kl::{argmax, places_in, top1_agrees, unstored_ids, KlAccumulator, KlRanks};
use requant::logits::{
    row_parts, rows_agree, LogitError, LogitRow, LogitStore, NO_TARGET,
};
use requant::order::stable_order;
use requant::perplexity::{
    find_llama_perplexity, first_number, kl_args, kl_base_args, lines, parse_kl_report, parse_ppl,
    perplexity_args, tail,
};

fn bits(v: &[f32]) -> Vec<u32> {
    v.iter().map(|x| x.to_bits()).collect()
}

fn floats(v: &[u32]) -> Vec<f32> {
    v.iter().map(|x| f32::from_bits(*x)).collect()
}

fn log_sum_exp(x: &[f32]) -> f64 {
    let max = x.iter().copied().fold(f32::NEG_INFINITY, f32::max) as f64;
    max + x.iter().map(|v| (*v as f64 - max).exp()).sum::<f64>().ln()
}

fn kl_divergence(reference: &[f32], candidate: &[f32]) -> f64 {
    let (lse_p, lse_q) = (log_sum_exp(reference), log_sum_exp(candidate));
    let mut acc = 0.0f64;
    for (&pl, &ql) in reference.iter().zip(candidate) {
        let lp = pl as f64 - lse_p;
        acc += lp.exp() * (lp - (ql as f64 - lse_q));
    }
    acc.max(0.0)
}

/// The mean divergence of two captures of whole rows, and what the accumulator holds.
fn compare(a: &LogitStore, b: &LogitStore) -> Result<(f64, KlAccumulator), LogitError> {
    let kls: Vec<f64> = a
        .rows
        .iter()
        .zip(&b.rows)
        .map(|(r, c)| match (r, c) {
            (LogitRow::Dense(x), LogitRow::Dense(y)) => kl_divergence(&floats(x), &floats(y)),
            _ => panic!("whole rows were expected"),
        })
        .collect();
    let divergences: Vec<u64> = kls.iter().map(|v| v.to_bits()).collect();
    let acc = a.compare(b, &divergences)?;
    Ok((kls.iter().sum::<f64>() / kls.len() as f64, acc))
}

fn store(vocab: usize, n: usize, jitter: f32) -> LogitStore {
    let mut s = LogitStore::new(vocab as u32, 0);
    for i in 0..n {
        let row: Vec<f32> = (0..vocab)
            .map(|v| (((i * 7 + v * 3) % 11) as f32) * 0.3 + (v as f32) * jitter)
            .collect();
        s.push(LogitRow::Dense(bits(&row)), (i % vocab) as u32);
    }
    s
}

#[test]
fn dense_store_round_trips_through_the_file_format() {
    let s = store(16, 5, 0.0);
    let back = LogitStore::from_bytes(&s.to_bytes().unwrap()).unwrap();
    assert_eq!(back.vocab, 16);
    assert_eq!(back.top_k, 0);
    assert_eq!(back.len(), 5);
    assert_eq!(back.targets, s.targets);
    for (a, b) in s.rows.iter().zip(&back.rows) {
        match (a, b) {
            (LogitRow::Dense(x), LogitRow::Dense(y)) => assert_eq!(x, y),
            _ => panic!("row kind changed"),
        }
    }
}

#[test]
fn sparse_store_round_trips_and_keeps_the_full_lse() {
    let mut s = store(64, 4, 0.0);
    let dense_lse: Vec<f64> = s
        .rows
        .iter()
        .map(|r| match r {
            LogitRow::Dense(v) => log_sum_exp(&floats(v)),
            _ => unreachable!(),
        })
        .collect();
    let lses: Vec<u64> = dense_lse.iter().map(|v| v.to_bits()).collect();
    s.sparsify(8, &lses);
    let back = LogitStore::from_bytes(&s.to_bytes().unwrap()).unwrap();
    assert_eq!(back.top_k, 8);
    for (i, r) in back.rows.iter().enumerate() {
        match r {
            LogitRow::Sparse { ids, full_lse, .. } => {
                assert_eq!(ids.len(), 8);
                assert!((f64::from_bits(*full_lse) - dense_lse[i]).abs() < 1e-9);
            }
            _ => panic!("expected sparse"),
        }
    }
}

#[test]
fn comparing_a_store_with_itself_is_zero_kl() {
    let s = store(32, 12, 0.0);
    let (mean, acc) = compare(&s, &s).unwrap();
    let stats = acc.finish();
    assert_eq!(stats.n, 12);
    assert!(mean < 1e-12, "{mean}");
    assert!((acc.top1_hits as f64 / stats.n as f64 - 1.0).abs() < 1e-12);
    assert!(acc.target_count > 0);
}

#[test]
fn mismatched_captures_are_rejected_rather_than_silently_compared() {
    let a = store(32, 12, 0.0);
    let b = store(32, 11, 0.0);
    let err = compare(&a, &b).unwrap_err();
    assert_eq!(err, a.check_comparable(&b).unwrap_err());
    assert!(err.message().contains("row-count mismatch"), "{}", err.message());

    let c = store(16, 12, 0.0);
    let err = compare(&a, &c).unwrap_err();
    assert_eq!(err, a.check_comparable(&c).unwrap_err());
    assert!(err.message().contains("vocab mismatch"), "{}", err.message());
}

#[test]
fn a_comparison_counts_hits_and_known_targets() {
    let rows = |all: [[f32; 3]; 4], targets: [u32; 4]| {
        let mut s = LogitStore::new(3, 0);
        for (row, t) in all.iter().zip(targets) {
            s.push(LogitRow::Dense(bits(row)), t);
        }
        s
    };
    let a = rows(
        [[0.0, 1.0, 2.0], [5.0, 1.0, 2.0], [0.0, 9.0, 2.0], [1.0, 0.0, 0.0]],
        [1, NO_TARGET, 7, 0],
    );
    let b = rows(
        [[0.0, 1.0, 2.0], [0.0, 1.0, 2.0], [0.0, 3.0, 2.0], [0.0, 0.0, 4.0]],
        [NO_TARGET; 4],
    );
    let acc = a.compare(&b, &[4, 3, 2, 1]).unwrap();
    assert_eq!(acc.values, vec![4, 3, 2, 1]);
    assert_eq!(acc.top1_hits, 2);
    // The second position has no target, and no row has the target of the third.
    assert_eq!(acc.target_count, 2);
    assert_eq!(a.target_logits(&b, 0), Some((1.0f32.to_bits(), 1.0f32.to_bits())));
    assert_eq!(a.target_logits(&b, 2), None);
    assert_eq!(a.target_logits(&b, 3), Some((1.0f32.to_bits(), 0.0f32.to_bits())));
    // Targets are those of the reference.
    assert_eq!(b.compare(&a, &[0; 4]).unwrap().target_count, 0);
    // A capture agrees with itself everywhere; an empty row prefers nothing.
    assert_eq!(a.compare(&a, &[0; 4]).unwrap().top1_hits, 4);
    let mut none = LogitStore::new(3, 0);
    none.push(LogitRow::Dense(vec![]), NO_TARGET);
    assert_eq!(none.compare(&none, &[0]).unwrap().top1_hits, 0);
}

#[test]
fn raw_f32_import_matches_the_shape_it_was_given() {
    let data: Vec<f32> = (0..24).map(|i| i as f32).collect();
    let s = LogitStore::from_dense_f32(&bits(&data), 8, None).unwrap();
    assert_eq!(s.len(), 3);
    assert_eq!(s.vocab, 8);
    assert!(s.targets.iter().all(|&t| t == NO_TARGET));
    assert!(LogitStore::from_dense_f32(&bits(&data), 7, None).is_err());
}

#[test]
fn sparsify_keeps_the_largest_logits_in_order() {
    let logits = [1.0f32, 9.0, 3.0, 7.0, 5.0];
    let row = LogitRow::sparsify(&bits(&logits), 3, log_sum_exp(&logits).to_bits());
    match row {
        LogitRow::Sparse { ids, logits: v, .. } => {
            assert_eq!(ids, vec![1, 3, 4]);
            assert_eq!(floats(&v), vec![9.0, 7.0, 5.0]);
        }
        _ => panic!(),
    }
}

#[test]
fn logit_dump_evaluator_scores_from_files() {
    let files = [
        ("reference.rqlg", store(32, 10, 0.0).to_bytes().unwrap()),
        ("cand_same.rqlg", store(32, 10, 0.0).to_bytes().unwrap()),
        ("cand_off.rqlg", store(32, 10, 0.05).to_bytes().unwrap()),
    ];
    let ev = LogitDumpEvaluator::new("dumps".to_string());
    assert!(!ev.scores_local_candidates());
    let load = |id: &str| {
        let name = ev.file_of(id);
        let (_, b) = files.iter().find(|(n, _)| *n == name).unwrap();
        ev.load(b).unwrap()
    };
    let reference = Reference::Logits { store: load(&ev.reference_id), ppl: None };
    assert!(reference.base().is_none() && reference.reference_ppl().is_none());
    let store = reference.capture().unwrap();

    let (same, _) = compare(store, &load(LogitDumpEvaluator::id_of("cand_same.gguf"))).unwrap();
    assert!(same < 1e-12, "identical dumps must score 0, got {same}");

    let (off, _) = compare(store, &load(LogitDumpEvaluator::id_of("cand_off.gguf"))).unwrap();
    assert!(off > same, "a perturbed dump must score worse");
}

#[test]
fn a_candidate_is_known_by_the_stem_of_its_file() {
    for name in ["a.gguf", "blk.0.attn_q@Q4_K.gguf", ".hidden", "plain", "..", "a.", "..x", "ü.b"] {
        let want = std::path::Path::new(name).file_stem().map(|s| s.to_str().unwrap());
        assert_eq!(LogitDumpEvaluator::id_of(name), want.unwrap_or(name), "{name}");
    }
}

#[test]
fn dumps_without_a_header_need_a_vocabulary() {
    let mut ev = LogitDumpEvaluator::new("d".to_string());
    assert_eq!(ev.file_of(LogitDumpEvaluator::id_of("nope.gguf")), "nope.rqlg");
    ev.raw_vocab = Some(2);
    assert_eq!(ev.file_of("nope"), "nope.f32");
    assert_eq!(ev.name(), "logit-dump");
    let raw: Vec<u8> = [1.0f32, 2.0, 3.0, 4.0].iter().flat_map(|v| v.to_le_bytes()).collect();
    let s = ev.load(&raw).unwrap();
    assert_eq!((s.len(), s.vocab, s.top_k), (2, 2, 0));
    assert_eq!(s.rows[1].logit_of(1), Some(4.0f32.to_bits()));
    assert_eq!(ev.load(&raw[..7]).unwrap_err(), LogitError::NotWholeFloats);
    assert_eq!(
        ev.load(&raw[..12]).unwrap_err(),
        LogitError::NotWholeRows { len: 3, vocab: 2 }
    );
}

#[test]
fn broken_captures_are_told_apart() {
    let good = store(4, 2, 0.0).to_bytes().unwrap();
    assert_eq!(LogitStore::from_bytes(&good[..31]).unwrap_err(), LogitError::NotAStore);
    let mut bad = good.clone();
    bad[0] = 0;
    assert_eq!(LogitStore::from_bytes(&bad).unwrap_err(), LogitError::NotAStore);
    let mut bad = good.clone();
    bad[4] = 9;
    assert_eq!(LogitStore::from_bytes(&bad).unwrap_err(), LogitError::UnsupportedVersion(9));
    assert_eq!(LogitStore::from_bytes(&good[..good.len() - 1]).unwrap_err(), LogitError::Truncated);
    assert_eq!(
        LogitStore::from_dense_f32(&bits(&[1.0, 2.0]), 1, Some(&[0])).unwrap_err(),
        LogitError::TargetCount { targets: 1, rows: 2 }
    );
    let mut mixed = LogitStore::new(4, 2);
    mixed.push(LogitRow::Dense(vec![0; 4]), 0);
    assert_eq!(mixed.to_bytes().unwrap_err(), LogitError::DenseRow { top_k: 2 });
}

#[test]
fn rows_of_either_kind_are_taken_apart() {
    let dense = LogitRow::Dense(bits(&[1.0, 3.0, 2.0]));
    let (ids, logits, lse) = row_parts(&dense, 7);
    assert_eq!((ids, floats(&logits), lse), (vec![0, 1, 2], vec![1.0, 3.0, 2.0], 7));
    let sparse = LogitRow::Sparse { ids: vec![1, 2], logits: bits(&[3.0, 2.0]), full_lse: 5 };
    let (ids, logits, lse) = row_parts(&sparse, 7);
    assert_eq!((ids, floats(&logits), lse), (vec![1, 2], vec![3.0, 2.0], 5));
    assert_eq!(dense.argmax(), Some(1));
    assert_eq!(sparse.argmax(), Some(1));
    assert!(rows_agree(&dense, &sparse));
    assert!(LogitRow::Dense(vec![]).argmax().is_none());
    assert_eq!(sparse.logit_of(0), None);
}

#[test]
fn preferred_tokens_are_the_first_of_the_greatest() {
    let a = bits(&[1.0, 2.0, 3.0, -1.0]);
    assert!(top1_agrees(&a, &a));
    assert_eq!(argmax(&a), 2);
    assert_eq!(argmax(&bits(&[-1.0, -0.5, -0.5])), 1);
    assert_eq!(argmax(&bits(&[f32::NAN, f32::NEG_INFINITY])), 0);
    assert_eq!(argmax(&bits(&[0.0, -0.0])), 0);
    assert_eq!(argmax(&[]), 0);
    assert!(!top1_agrees(&a, &bits(&[9.0, 2.0, 3.0, -1.0])));
}

#[test]
fn ids_are_found_where_they_first_stand() {
    assert_eq!(places_in(&[5, 7, 9], &[9, 5, 5]), vec![Some(1), None, Some(0)]);
    assert_eq!(unstored_ids(8, 3), 5);
    assert_eq!(unstored_ids(3, 3), 1);
    assert_eq!(unstored_ids(2, 3), 1);
}

#[test]
fn accumulator_reports_quantiles_and_agreement() {
    let mut acc = KlAccumulator::new();
    for i in 0..100 {
        acc.push((i as f64 / 100.0).to_bits(), i % 4 != 0);
    }
    let s = acc.finish();
    assert_eq!(s.n, 100);
    let mean = acc.values.iter().map(|v| f64::from_bits(*v)).sum::<f64>() / s.n as f64;
    assert!((mean - 0.495).abs() < 1e-9);
    assert!((f64::from_bits(s.median) - 0.50).abs() < 0.02);
    assert!((f64::from_bits(s.p99) - 0.99).abs() < 0.02);
    assert!((f64::from_bits(s.max) - 0.99).abs() < 1e-9);
    assert!((acc.top1_hits as f64 / s.n as f64 - 0.75).abs() < 1e-9);
}

#[test]
fn quantiles_stand_where_rounding_puts_them() {
    for n in 1..400usize {
        let mut acc = KlAccumulator::new();
        for i in 0..n {
            acc.push((((i * 37) % n) as f64 - 3.0).to_bits(), false);
        }
        let mut sorted: Vec<f64> = acc.values.iter().map(|v| f64::from_bits(*v)).collect();
        sorted.sort_by(|a, b| a.partial_cmp(b).unwrap());
        let q = |p: f64| sorted[(((n as f64 - 1.0) * p).round() as usize).min(n - 1)];
        let s = acc.finish();
        assert_eq!(f64::from_bits(s.median), q(0.5), "n={n}");
        assert_eq!(f64::from_bits(s.p90), q(0.90), "n={n}");
        assert_eq!(f64::from_bits(s.p99), q(0.99), "n={n}");
        assert_eq!(f64::from_bits(s.max), sorted[n - 1], "n={n}");
    }
    let none = KlAccumulator::new();
    assert!(none.is_empty());
    assert_eq!(none.finish(), KlRanks { n: 0, median: 0, p90: 0, p99: 0, max: 0 });
}

#[test]
fn equal_keys_keep_their_order() {
    assert_eq!(stable_order(&[3, 1, 2, 1, 3]), vec![1, 3, 2, 0, 4]);
    assert_eq!(stable_order(&[]), Vec::<usize>::new());
    let keys: Vec<u64> = (0..2000u64).map(|i| (i * 7919) % 97).collect();
    let mut want: Vec<usize> = (0..keys.len()).collect();
    want.sort_by_key(|i| keys[*i]);
    assert_eq!(stable_order(&keys), want);
}

fn parse_first_f64(s: &str) -> Option<f64> {
    first_number(s).map(|t| t.parse().unwrap())
}

#[test]
fn parses_ppl_with_error_suffix() {
    assert_eq!(parse_first_f64("4.6921 +/- 0.24358"), Some(4.6921));
}

#[test]
fn parses_bare_value() {
    assert_eq!(parse_first_f64("  4.6752"), Some(4.6752));
    assert_eq!(parse_first_f64("4.6752,"), Some(4.6752));
}

#[test]
fn parses_scientific_and_signed() {
    assert_eq!(parse_first_f64("-1.5e-3 rest"), Some(-0.0015));
    assert_eq!(parse_first_f64("+0.5"), Some(0.5));
}

#[test]
fn rejects_non_numeric() {
    assert_eq!(parse_first_f64("+/- 0.24"), None);
    assert_eq!(parse_first_f64("no number"), None);
}

#[test]
fn numbers_are_those_that_parse() {
    for s in ["", ".", "1.", ".5", "1e", "1e+", "1.2.3", "--1", "1e5e6", "+.e1", "\u{a0} 7"] {
        let start = s.trim_start();
        let end = {
            let b = start.as_bytes();
            let mut end = 0;
            if end < b.len() && (b[end] == b'+' || b[end] == b'-') {
                end += 1;
            }
            let (mut dot, mut exp, digits) = (false, false, end);
            while end < b.len() {
                if b[end].is_ascii_digit() {
                    end += 1;
                } else if b[end] == b'.' && !dot && !exp {
                    dot = true;
                    end += 1;
                } else if (b[end] == b'e' || b[end] == b'E') && !exp && end > digits {
                    exp = true;
                    end += 1;
                    if end < b.len() && (b[end] == b'+' || b[end] == b'-') {
                        end += 1;
                    }
                } else {
                    break;
                }
            }
            end
        };
        let want = start[..end].parse::<f64>().ok();
        assert_eq!(parse_first_f64(s), want, "{s:?}");
    }
}

#[test]
fn finds_the_final_estimate_and_its_uncertainty() {
    let out = "perplexity: tokenizing the input ..\n\
               [1]4.5,[2]4.7\n\
               Final estimate: PPL = 4.6921 +/- 0.24358\n\
               ggml_metal_free: deallocating\n";
    let r = parse_ppl(out).unwrap();
    assert_eq!(r.ppl.parse::<f64>().unwrap(), 4.6921);
    assert_eq!(r.stderr.map(|s| s.parse::<f64>().unwrap()), Some(0.24358));
}

#[test]
fn searches_backward_so_chunk_estimates_do_not_shadow_the_final_one() {
    let out = "Estimate: PPL = 9.99\nFinal estimate: PPL = 4.6921 +/- 0.2\n";
    assert_eq!(parse_ppl(out).unwrap().ppl.parse::<f64>().unwrap(), 4.6921);
}

#[test]
fn parses_the_kl_statistics_block() {
    let out = "\
====== KL divergence statistics ======
Mean    KLD:   0.010000 ±   0.000100
Maximum KLD:   1.234000
99.9%   KLD:   0.900000
99.0%   KLD:   0.100000
90.0%   KLD:   0.030000
Median  KLD:   0.002000
====== Token probability statistics ======
Same top p:  95.500 ± 0.100 %
";
    let s = parse_kl_report(out).unwrap();
    let value = |t: &Option<String>| t.as_ref().unwrap().parse::<f64>().unwrap();
    assert_eq!(value(&s.mean), 0.01);
    assert_eq!(value(&s.max), 1.234);
    assert_eq!(value(&s.p99), 0.1);
    assert_eq!(value(&s.p90), 0.03);
    assert_eq!(value(&s.median), 0.002);
    assert!((value(&s.same_top) / 100.0 - 0.955).abs() < 1e-9);
}

#[test]
fn missing_kl_block_is_an_error_not_a_zero() {
    // Silently returning KL=0 would tell the search that a candidate is free.
    let out = "Final estimate: PPL = 4.6921\n";
    assert!(parse_kl_report(out).is_none());
}

#[test]
fn reports_without_an_estimate_have_none() {
    assert!(parse_ppl("nothing here\n").is_none());
    assert!(parse_ppl("").is_none());
    assert_eq!(lines("a\r\nb\n\nc"), vec!["a", "b", "", "c"]);
    assert_eq!(tail("a\nb\nc\n", 2), "b\nc");
    assert_eq!(tail("a", 2), "a");
}

#[test]
fn runs_are_told_what_to_do() {
    let extra = vec!["-c".to_string(), "512".to_string()];
    assert_eq!(perplexity_args("m", "f", &extra), vec!["-m", "m", "-f", "f", "-c", "512"]);
    assert_eq!(
        kl_base_args("m", "f", "b", &[]),
        vec!["-m", "m", "-f", "f", "--kl-divergence-base", "b"]
    );
    assert_eq!(
        kl_args("m", "b", &extra),
        vec!["-m", "m", "--kl-divergence-base", "b", "--kl-divergence", "-c", "512"]
    );
    assert_eq!(find_llama_perplexity(None, Some("p".into())), Some("p".into()));
    assert_eq!(find_llama_perplexity(Some("q".into()), Some("p".into())), Some("q".into()));
    assert!(LlamaCppEvaluator::new(None, "w".into()).is_none());
    let ev = LlamaCppEvaluator::new(Some("p".into()), "w".into()).unwrap().with_args(extra);
    assert_eq!((ev.bin.as_str(), ev.work_dir.as_str(), ev.extra_args.len()), ("p", "w", 2));
    assert!(ev.scores_local_candidates());
    assert_eq!(ev.name(), "llama.cpp");
    assert_eq!(corpus_of(None), DEFAULT_CORPUS);
    assert_eq!(corpus_of(Some("x")), "x");
}

#[test]
fn a_base_file_knows_its_perplexity() {
    let ppl = parse_ppl("Final estimate: PPL = 4.6921 +/- 0.2\n");
    let r = Reference::LlamaBase { path: "b".into(), ppl };
    assert_eq!(r.reference_ppl(), Some("4.6921"));
    assert_eq!(r.base(), Some("b"));
    assert!(r.capture().is_none());
}
