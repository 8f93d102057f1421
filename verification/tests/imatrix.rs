use requant::gguf::reader::GgufReader;
use requant::gguf::value::{GgufError, GgufValue};
use requant::gguf::writer::{GgufWriter, TensorSpec};
use requant::imatrix::{count_nonfinite, count_nonpositive, cross_check, load_imatrix, ImatrixError};

fn bits(v: &[f32]) -> Vec<u32> {
    v.iter().map(|x| x.to_bits()).collect()
}

fn write_imatrix(entries: &[(&str, u32, &[f32])]) -> Vec<u8> {
    let mut buf = Vec::new();
    buf.extend_from_slice(&(entries.len() as i32).to_le_bytes());
    for (name, ncall, vals) in entries {
        buf.extend_from_slice(&(name.len() as i32).to_le_bytes());
        buf.extend_from_slice(name.as_bytes());
        buf.extend_from_slice(&ncall.to_le_bytes());
        buf.extend_from_slice(&(vals.len() as i32).to_le_bytes());
        for v in *vals {
            buf.extend_from_slice(&v.to_le_bytes());
        }
    }
    buf
}

#[test]
fn round_trips_a_small_imatrix() {
    let a = vec![1.0f32, 2.0, 3.0, 4.0];
    let b = vec![0.5, 1.5];
    let bytes =
        write_imatrix(&[("blk.0.ffn_up.weight", 128, &a), ("blk.1.attn_q.weight", 64, &b)]);

    let im = load_imatrix(&bytes).unwrap();
    assert_eq!(im.len(), 2);
    assert_eq!(im.get("blk.0.ffn_up.weight").unwrap(), &bits(&a)[..]);
    assert_eq!(im.get("blk.1.attn_q.weight").unwrap(), &bits(&b)[..]);
    assert_eq!(im.entries.get("blk.0.ffn_up.weight").unwrap().ncall, 128);
    assert!(im.get("nope").is_none());
}

#[test]
fn rejects_truncated_file() {
    let a = vec![1.0f32, 2.0, 3.0];
    let mut bytes = write_imatrix(&[("t", 1, &a)]);
    // chop off the last 4 bytes (one f32) -> truncated values
    bytes.truncate(bytes.len() - 4);
    let res = load_imatrix(&bytes);
    assert!(res.is_err(), "truncated imatrix must error");
}

/// Build a minimal GGUF imatrix (the format modern llama.cpp `llama-imatrix` writes):
/// `general.type = "imatrix"` plus `<weight>.in_sum2` (f32, Σ x² per input channel) and
/// `<weight>.counts` (f32 scalar) tensors.
fn write_imatrix_gguf(entries: &[(&str, f32, &[f32])]) -> Vec<u8> {
    let mut w = GgufWriter::new();
    w.add_kv("general.type".to_string(), GgufValue::String("imatrix".to_string()));
    for (name, ncall, vals) in entries {
        let mut data = Vec::with_capacity(vals.len() * 4);
        for v in *vals {
            data.extend_from_slice(&v.to_le_bytes());
        }
        w.add_tensor(TensorSpec {
            name: format!("{name}.in_sum2"),
            dims: vec![vals.len() as u64],
            ggml_type: 0, // F32
            data,
        });
        w.add_tensor(TensorSpec {
            name: format!("{name}.counts"),
            dims: vec![1],
            ggml_type: 0, // F32
            data: ncall.to_le_bytes().to_vec(),
        });
    }
    w.to_bytes()
}

#[test]
fn loads_modern_gguf_imatrix() {
    let a = vec![1.0f32, 2.0, 3.0, 4.0];
    let b = vec![0.5, 1.5];
    let bytes = write_imatrix_gguf(&[
        ("blk.0.ffn_up.weight", 128.0, &a),
        ("blk.1.attn_q.weight", 64.0, &b),
    ]);

    let im = load_imatrix(&bytes).unwrap();
    // `.counts` and `.in_sum2` tensors must not appear as separate entries — only the bare
    // weight name is exposed.
    assert_eq!(im.len(), 2);
    assert_eq!(im.get("blk.0.ffn_up.weight").unwrap(), &bits(&a)[..]);
    assert_eq!(im.get("blk.1.attn_q.weight").unwrap(), &bits(&b)[..]);
    assert_eq!(im.entries.get("blk.0.ffn_up.weight").unwrap().ncall, 128);
    assert_eq!(im.entries.get("blk.1.attn_q.weight").unwrap().ncall, 64);
    assert!(im.get("blk.0.ffn_up.weight.in_sum2").is_none());
    assert!(im.get("blk.0.ffn_up.weight.counts").is_none());
}

#[test]
fn gguf_imatrix_without_in_sum2_tensors_errors() {
    let mut w = GgufWriter::new();
    w.add_kv("general.type".to_string(), GgufValue::String("imatrix".to_string()));
    w.add_tensor(TensorSpec {
        name: "unrelated.weight".to_string(),
        dims: vec![2],
        ggml_type: 0,
        data: [1.0f32, 2.0].iter().flat_map(|v| v.to_le_bytes()).collect(),
    });
    let res = load_imatrix(&w.to_bytes());
    assert!(res.is_err(), "GGUF with no .in_sum2 tensors must error");
    assert!(matches!(res.unwrap_err(), ImatrixError::NoSums));
}

#[test]
fn broken_streams_are_told_apart() {
    let err = |b: &[u8]| load_imatrix(b).unwrap_err();
    assert!(matches!(err(&[1, 0]), ImatrixError::PastEof));
    assert!(matches!(err(&(-1i32).to_le_bytes()), ImatrixError::TooManyTensors));
    assert!(matches!(err(&1_000_001i32.to_le_bytes()), ImatrixError::TooManyTensors));
    assert!(matches!(err(&1i32.to_le_bytes()), ImatrixError::PastEof));
    let mut b = 1i32.to_le_bytes().to_vec();
    b.extend_from_slice(&4097i32.to_le_bytes());
    assert!(matches!(err(&b), ImatrixError::NameTooLong(0)));
    let mut b = write_imatrix(&[("t", 1, &[1.0])]);
    b[8] = 0xff;
    assert!(matches!(err(&b), ImatrixError::BadName(0)));
    let mut b = write_imatrix(&[("t", 1, &[1.0])]);
    b[13..17].copy_from_slice(&0x1000_0001i32.to_le_bytes());
    assert!(matches!(err(&b), ImatrixError::TooManyValues(n) if n == "t"));
    let b = write_imatrix(&[("t", 1, &[1.0])]);
    assert!(matches!(err(&b[..20]), ImatrixError::Truncated(n) if n == "t"));
    assert!(matches!(err(b"GGUF\x07\0\0\0"), ImatrixError::Gguf(_)));
    assert!(load_imatrix(&0i32.to_le_bytes()).unwrap().is_empty());
}

#[test]
fn sums_that_are_no_floats_are_named() {
    let mut w = GgufWriter::new();
    w.add_tensor(TensorSpec {
        name: "a.in_sum2".to_string(),
        dims: vec![32],
        ggml_type: 8,
        data: vec![0; 34],
    });
    assert!(matches!(
        load_imatrix(&w.to_bytes()).unwrap_err(),
        ImatrixError::Decode { tensor, kind: GgufError::NotFloat(8) } if tensor == "a.in_sum2"
    ));
}

#[test]
fn the_later_record_counts() {
    let b = write_imatrix(&[("t", 1, &[1.0]), ("t", 2, &[2.0, 3.0])]);
    let im = load_imatrix(&b).unwrap();
    assert_eq!(im.len(), 1);
    assert_eq!(im.get("t").unwrap(), &bits(&[2.0, 3.0])[..]);
}

#[test]
fn bad_values_and_missing_tensors_are_counted() {
    let b = write_imatrix(&[
        ("a", 1, &[1.0, 0.0, -1.0, f32::NAN]),
        ("b", 1, &[f32::INFINITY, 2.0, -0.0, 1.0e-45]),
    ]);
    let im = load_imatrix(&b).unwrap();
    assert_eq!(count_nonfinite(&im), 2);
    assert_eq!(count_nonpositive(&im), 5);
    let mut w = GgufWriter::new();
    for n in ["a", "c", "b"] {
        w.add_tensor(TensorSpec {
            name: n.to_string(),
            dims: vec![1],
            ggml_type: 0,
            data: vec![0; 4],
        });
    }
    let file = w.to_bytes();
    let r = GgufReader::from_bytes(&file).unwrap();
    assert_eq!(cross_check(&im, &r.tensors), (2, 1));
}

#[test]
fn only_nan_and_infinities_are_not_finite() {
    let b = write_imatrix(&[("a", 1, &[1.0, 0.0, -2.0, f32::NAN, f32::INFINITY])]);
    let im = load_imatrix(&b).unwrap();
    assert_eq!(count_nonfinite(&im), 2);
    assert_eq!(count_nonpositive(&im), 4);
    let b = write_imatrix(&[("a", 1, &[f32::NEG_INFINITY, -f32::NAN, f32::MAX, f32::MIN])]);
    let im = load_imatrix(&b).unwrap();
    assert_eq!(count_nonfinite(&im), 2);
    assert_eq!(count_nonpositive(&im), 3);
}

#[test]
fn counts_are_cut_to_whole_numbers() {
    for (count, want) in
        [(2.9f32, 2u32), (-1.0, 0), (1.0e20, u32::MAX), (f32::NAN, 0), (0.99, 0), (16777216.0, 16777216)]
    {
        let b = write_imatrix_gguf(&[("w", count, &[1.0])]);
        let im = load_imatrix(&b).unwrap();
        assert_eq!(im.entries.get("w").unwrap().ncall, want, "{count}");
        assert_eq!(want, count as u32);
    }
}
