use requant::gguf::geometry::{
    align_up, block_layout, bpw, count_elems, ggml_type_name, packed_nbytes, packed_nbytes_of,
};
use requant::gguf::reader::{tensor_nbytes, GgufReader, TensorInfo, DEFAULT_ALIGNMENT};
use requant::gguf::stream::GgufStream;
use requant::gguf::value::{GgufError, GgufType, GgufValue};
use requant::gguf::writer::{
    data_len, padding_after, stream_header, GgufWriter, TensorPlan, TensorSpec,
};

fn write_f16(buf: &mut Vec<u8>, v: f32) {
    buf.extend_from_slice(&half::f16::from_f32(v).to_le_bytes());
}

/// Build a tiny synthetic GGUF with a few F16 tensors (no real architecture; just container validity).
fn make_synthetic_gguf() -> Vec<u8> {
    let mut w = GgufWriter::new();
    w.add_kv("general.architecture".to_string(), GgufValue::String("requant-test".into()));
    w.add_kv("general.name".to_string(), GgufValue::String("synthetic".into()));
    w.add_kv("general.file_type".to_string(), GgufValue::U32(1)); // F16
    w.add_kv(
        "test.counts".to_string(),
        GgufValue::Array {
            elem: GgufType::U32,
            items: vec![GgufValue::U32(1), GgufValue::U32(2), GgufValue::U32(3)],
        },
    );

    // tensor A: shape [4, 32] F16, so 128 elements; row length 32 (matches legacy block).
    let (rows, cols) = (4usize, 32usize);
    let mut data_a = Vec::with_capacity(rows * cols * 2);
    for r in 0..rows {
        for c in 0..cols {
            let v = ((r * cols + c) as f32) * 0.1 - 1.0;
            write_f16(&mut data_a, v);
        }
    }
    w.add_tensor(TensorSpec {
        name: "tensor.a".into(),
        dims: vec![rows as u64, cols as u64],
        ggml_type: 1,
        data: data_a,
    });

    // tensor B: shape [16] F16 (1-D norm-like).
    let mut data_b = Vec::with_capacity(16 * 2);
    for i in 0..16 {
        write_f16(&mut data_b, (i as f32) * 0.5);
    }
    w.add_tensor(TensorSpec {
        name: "tensor.b".into(),
        dims: vec![16],
        ggml_type: 1,
        data: data_b,
    });

    w.to_bytes()
}

#[test]
fn writer_reader_writer_is_byte_identical() {
    let original = make_synthetic_gguf();

    let r = GgufReader::from_bytes(&original).unwrap();
    assert_eq!(r.version, 3);
    assert_eq!(r.tensors.len(), 2);
    assert_eq!(r.tensors[0].name, "tensor.a");
    assert_eq!(r.tensors[0].dims, vec![4, 32]); // logical order
    assert_eq!(r.tensors[0].ggml_type, 1);
    assert_eq!(r.tensors[1].dims, vec![16]);
    // KV round-trips
    assert_eq!(r.get("general.architecture").unwrap().as_str(), Some("requant-test"));
    let (_, arr) = r.get("test.counts").unwrap().as_array().unwrap();
    assert_eq!(arr.len(), 3);

    // Re-serialize and compare byte-for-byte.
    let mut w = GgufWriter::new();
    w.set_alignment(r.alignment);
    w.copy_kv_from(&r);
    for (i, t) in r.tensors.iter().enumerate() {
        let bytes = r.tensor_bytes(i).unwrap().to_vec();
        w.add_tensor(TensorSpec {
            name: t.name.clone(),
            dims: t.dims.clone(),
            ggml_type: t.ggml_type,
            data: bytes,
        });
    }
    let rewritten = w.to_bytes();

    assert_eq!(
        original,
        rewritten,
        "writer→reader→writer must be byte-identical (got {} vs {} bytes)",
        rewritten.len(),
        original.len()
    );
}

#[test]
fn packed_sizes_match_known_format_geometry() {
    let bpw = |t: u32| bpw(t).map(|(bits, n)| bits as f64 / n as f64);
    // bits-per-weight sanity vs llama-quantize's reported numbers.
    assert!((bpw(8).unwrap() - 8.5).abs() < 1e-9); // Q8_0: 34 bytes / 32 = 8.5
    assert!((bpw(2).unwrap() - 4.5).abs() < 1e-9); // Q4_0: 18/32 = 4.5
    assert!((bpw(12).unwrap() - 4.5).abs() < 1e-9); // Q4_K: 144/256 = 4.5
    assert!((bpw(14).unwrap() - 6.5625).abs() < 1e-9); // Q6_K: 210/256
    assert!((bpw(10).unwrap() - 2.625).abs() < 1e-9); // Q2_K: 84/256
    assert_eq!(packed_nbytes(8, 32 * 10, "t").unwrap(), 34 * 10);
    assert_eq!(packed_nbytes(12, 256 * 4, "t").unwrap(), 144 * 4);
    assert!(packed_nbytes(8, 30, "t").is_err()); // not divisible by 32
}

#[test]
fn the_file_begins_as_the_format_says() {
    let mut w = GgufWriter::new();
    w.add_kv("k".to_string(), GgufValue::Bool(true));
    let b = w.to_bytes();
    let mut want: Vec<u8> = b"GGUF".to_vec();
    want.extend_from_slice(&3u32.to_le_bytes());
    want.extend_from_slice(&0u64.to_le_bytes());
    want.extend_from_slice(&1u64.to_le_bytes());
    want.extend_from_slice(&1u64.to_le_bytes());
    want.push(b'k');
    want.extend_from_slice(&7u32.to_le_bytes());
    want.push(1);
    want.resize(64, 0);
    assert_eq!(b, want);
}

#[test]
fn every_kind_of_value_reads_back() {
    let mut w = GgufWriter::new();
    w.add_kv("a".into(), GgufValue::U8(200));
    w.add_kv("b".into(), GgufValue::I8(-5));
    w.add_kv("c".into(), GgufValue::U16(60000));
    w.add_kv("d".into(), GgufValue::I16(-30000));
    w.add_kv("e".into(), GgufValue::U32(4_000_000_000));
    w.add_kv("f".into(), GgufValue::I32(-2_000_000_000));
    w.add_kv("g".into(), GgufValue::F32(1.5f32.to_bits()));
    w.add_kv("h".into(), GgufValue::Bool(false));
    w.add_kv("i".into(), GgufValue::String("grüße".into()));
    w.add_kv("j".into(), GgufValue::U64(u64::MAX));
    w.add_kv("k".into(), GgufValue::I64(i64::MIN));
    w.add_kv("l".into(), GgufValue::F64((-0.1f64).to_bits()));
    let inner = GgufValue::Array { elem: GgufType::Bool, items: vec![GgufValue::Bool(true)] };
    w.add_kv("m".into(), GgufValue::Array { elem: GgufType::Array, items: vec![inner] });
    let b = w.to_bytes();
    let r = GgufReader::from_bytes(&b).unwrap();
    assert!(matches!(r.get("a"), Some(GgufValue::U8(200))));
    assert!(matches!(r.get("b"), Some(GgufValue::I8(-5))));
    assert!(matches!(r.get("c"), Some(GgufValue::U16(60000))));
    assert!(matches!(r.get("d"), Some(GgufValue::I16(-30000))));
    assert_eq!(r.get("e").unwrap().as_u32(), Some(4_000_000_000));
    assert!(matches!(r.get("f"), Some(GgufValue::I32(-2_000_000_000))));
    assert_eq!(r.get("g").unwrap().as_f32(), Some(1.5f32.to_bits()));
    assert!(matches!(r.get("h"), Some(GgufValue::Bool(false))));
    assert_eq!(r.get("i").unwrap().as_str(), Some("grüße"));
    assert!(matches!(r.get("j"), Some(GgufValue::U64(u64::MAX))));
    assert!(matches!(r.get("k"), Some(GgufValue::I64(i64::MIN))));
    assert!(matches!(r.get("l"), Some(GgufValue::F64(x)) if *x == (-0.1f64).to_bits()));
    let (t, items) = r.get("m").unwrap().as_array().unwrap();
    assert_eq!(*t, GgufType::Array);
    let (t, items) = items[0].as_array().unwrap();
    assert_eq!(*t, GgufType::Bool);
    assert!(matches!(items[0], GgufValue::Bool(true)));
    assert!(r.get("n").is_none());
}

#[test]
fn elements_widen_to_single_precision() {
    let b = make_synthetic_gguf();
    let r = GgufReader::from_bytes(&b).unwrap();
    let v = r.tensor_to_f32(r.find_tensor("tensor.b").unwrap()).unwrap();
    let want: Vec<u32> = (0..16).map(|i| (i as f32 * 0.5).to_bits()).collect();
    assert_eq!(v, want);
    assert_eq!(r.find_tensor("tensor.c"), None);
    assert_eq!(r.tensors[0].rows_cols(), (4, 32));
    assert_eq!(r.tensors[0].n_elems(), 128);
}

#[test]
fn half_and_bfloat_elements_agree_with_the_reference_widening() {
    let mut half = Vec::new();
    let mut brain = Vec::new();
    for i in 0..=u16::MAX {
        half.extend_from_slice(&i.to_le_bytes());
        brain.extend_from_slice(&i.to_le_bytes());
    }
    let mut w = GgufWriter::new();
    w.add_tensor(TensorSpec { name: "h".into(), dims: vec![65536], ggml_type: 1, data: half });
    w.add_tensor(TensorSpec { name: "b".into(), dims: vec![65536], ggml_type: 30, data: brain });
    let bytes = w.to_bytes();
    let r = GgufReader::from_bytes(&bytes).unwrap();
    let h = r.tensor_to_f32(0).unwrap();
    let b = r.tensor_to_f32(1).unwrap();
    for i in 0..=u16::MAX {
        let want = half::f16::from_bits(i).to_f32();
        let got = f32::from_bits(h[i as usize]);
        assert!(got.to_bits() == want.to_bits() || (got.is_nan() && want.is_nan()), "{i:#x}");
        let want = half::bf16::from_bits(i).to_f32();
        let got = f32::from_bits(b[i as usize]);
        assert!(got.to_bits() == want.to_bits() || (got.is_nan() && want.is_nan()), "{i:#x}");
    }
}

#[test]
fn alignment_is_kept_and_followed() {
    let mut w = GgufWriter::new();
    w.set_alignment(64);
    w.add_kv("general.alignment".into(), GgufValue::U32(64));
    w.add_tensor(TensorSpec { name: "x".into(), dims: vec![3], ggml_type: 0, data: vec![7; 12] });
    w.add_tensor(TensorSpec { name: "y".into(), dims: vec![1], ggml_type: 0, data: vec![9; 4] });
    let b = w.to_bytes();
    let r = GgufReader::from_bytes(&b).unwrap();
    assert_eq!(r.alignment, 64);
    assert_eq!(r.data_offset % 64, 0);
    assert_eq!(r.tensors[1].offset, 64);
    assert_eq!(r.tensor_bytes(1).unwrap(), &[9u8; 4][..]);
    assert_eq!(GgufWriter::new().alignment, DEFAULT_ALIGNMENT);
}

#[test]
fn the_writer_states_its_alignment() {
    let mut w = GgufWriter::new();
    w.set_alignment(64);
    w.add_kv("general.name".into(), GgufValue::String("m".into()));
    w.add_tensor(TensorSpec {
        name: "tensor.aa".into(),
        dims: vec![1],
        ggml_type: 0,
        data: vec![0, 0, 128, 63],
    });
    let b = w.to_bytes();
    let r = GgufReader::from_bytes(&b).unwrap();
    assert_eq!(r.alignment, 64);
    assert_eq!(r.tensor_bytes(0).unwrap(), &[0u8, 0, 128, 63][..]);
    let keys: Vec<&str> = r.kv.iter().map(|(k, _)| k.as_str()).collect();
    assert_eq!(keys, ["general.name", "general.alignment"]);
    assert!(matches!(r.kv[1].1, GgufValue::U32(64)));
    // Copying drops the pair, and the writer states it again.
    let mut again = GgufWriter::new();
    again.set_alignment(r.alignment);
    again.copy_kv_from(&r);
    assert_eq!(again.kv.len(), 1);
    again.add_tensor(TensorSpec {
        name: "tensor.aa".into(),
        dims: vec![1],
        ggml_type: 0,
        data: vec![0, 0, 128, 63],
    });
    assert_eq!(again.to_bytes(), b);
}

#[test]
fn every_small_alignment_reads_back() {
    for a in [0u64, 1, 2, 7, 31, 32, 33, 100, 4096] {
        let mut w = GgufWriter::new();
        w.set_alignment(a);
        for n in 0..3u8 {
            w.add_tensor(TensorSpec {
                name: format!("t{n}"),
                dims: vec![1],
                ggml_type: 0,
                data: vec![n; 4],
            });
        }
        let b = w.to_bytes();
        let r = GgufReader::from_bytes(&b).unwrap();
        assert_eq!(r.alignment, a.max(1));
        assert_eq!(r.kv.len(), if a == 32 { 0 } else { 1 });
        for n in 0..3u8 {
            assert_eq!(r.tensor_bytes(n as usize).unwrap(), &[n; 4][..]);
        }
        let head = stream_header(&[], &plans_of(&r), a, 3);
        assert_eq!(head, &b[..head.len()]);
    }
}

#[test]
fn a_streamed_file_is_the_file() {
    let b = make_synthetic_gguf();
    let r = GgufReader::from_bytes(&b).unwrap();
    let plans: Vec<TensorPlan> = r
        .tensors
        .iter()
        .map(|t| TensorPlan {
            name: t.name.clone(),
            dims: t.dims.clone(),
            ggml_type: t.ggml_type,
            nbytes: tensor_nbytes(t).unwrap(),
        })
        .collect();
    let mut out = stream_header(&r.kv, &plans, r.alignment, r.version);
    let total = out.len() as u64 + data_len(&plans, r.alignment).unwrap();
    for (i, p) in plans.iter().enumerate() {
        let data = r.tensor_bytes(i).unwrap();
        let pad = padding_after(p, data.len() as u64, r.alignment).unwrap();
        out.extend_from_slice(data);
        out.resize(out.len() + pad as usize, 0);
    }
    assert_eq!(out.len() as u64, total);
    assert_eq!(out, b);
    let wrong = padding_after(&plans[0], 1, 32).unwrap_err();
    assert_eq!((wrong.provided, wrong.stated), (1, 256));
}

fn plans_of(r: &GgufReader<'_>) -> Vec<TensorPlan> {
    r.tensors
        .iter()
        .map(|t| TensorPlan {
            name: t.name.clone(),
            dims: t.dims.clone(),
            ggml_type: t.ggml_type,
            nbytes: tensor_nbytes(t).unwrap(),
        })
        .collect()
}

#[test]
fn a_stream_asks_in_order_and_counts() {
    let b = make_synthetic_gguf();
    let r = GgufReader::from_bytes(&b).unwrap();
    let (mut out, mut s) = GgufStream::start(&r.kv, plans_of(&r), 32, r.version).unwrap();
    let mut asked = Vec::new();
    while let Some(i) = s.wanted() {
        asked.push(i);
        out.extend(s.provide(r.tensor_bytes(i).unwrap().to_vec()).unwrap());
        assert_eq!(s.total, out.len() as u64);
    }
    assert_eq!(asked, (0..r.tensors.len()).collect::<Vec<_>>());
    assert_eq!(s.total, b.len() as u64);
    assert_eq!(out, b);
}

#[test]
fn a_stream_stops_at_the_first_wrong_length() {
    let plan = |name: &str, nbytes| TensorPlan { name: name.into(), dims: vec![1], ggml_type: 0, nbytes };
    let plans = vec![plan("a", 4), plan("b", 4), plan("c", 4)];
    let (head, mut s) = GgufStream::start(&[], plans, 32, 3).unwrap();
    assert_eq!(s.provide(vec![1; 4]).unwrap().len(), 32);
    let e = s.provide(vec![1; 5]).unwrap_err();
    assert_eq!((e.provided, e.stated), (5, 4));
    assert_eq!(s.wanted(), None);
    assert_eq!(s.total, head.len() as u64 + 32);
    let huge = vec![plan("a", u64::MAX - 63)];
    assert!(GgufStream::start(&[], huge, 32, 3).is_none());
}

#[test]
fn sizes_past_sixty_four_bits_are_noticed() {
    let plan = || TensorPlan { name: "x".into(), dims: vec![1], ggml_type: 0, nbytes: u64::MAX - 40 };
    assert_eq!(data_len(&[plan(), plan()], 32), None);
    assert!(data_len(&[plan()], 32).is_some());
    assert_eq!(count_elems(&[u64::MAX, 2]), None);
    assert_eq!(count_elems(&[]), Some(1));
    let huge = TensorInfo { name: "x".into(), dims: vec![u64::MAX, 2], ggml_type: 0, offset: 0 };
    assert_eq!(tensor_nbytes(&huge).unwrap_err().kind, GgufError::SizeOverflow);
    assert_eq!(packed_nbytes_of(0, u64::MAX).unwrap_err(), GgufError::SizeOverflow);
}

#[test]
fn broken_files_are_refused() {
    let b = make_synthetic_gguf();
    let err = |b: &[u8]| GgufReader::from_bytes(b).map(|r| r.version).unwrap_err();
    assert_eq!(err(b"GG"), GgufError::PastEof { at: 0, n: 4 });
    assert_eq!(err(b"GGML0000"), GgufError::NotGguf);
    let mut old = b.clone();
    old[4] = 1;
    assert_eq!(err(&old), GgufError::UnsupportedVersion(1));
    assert!(matches!(err(&b[..40]), GgufError::PastEof { .. }));
    // The key of the first pair is no text.
    let mut bad = b.clone();
    bad[32] = 0xff;
    assert_eq!(err(&bad), GgufError::NotUtf8);
    // The type of the first pair is unknown.
    let mut bad = b.clone();
    bad[32 + 20] = 99;
    assert_eq!(err(&bad), GgufError::UnknownType(99));
    // The data of the second tensor are cut off.
    let r = GgufReader::from_bytes(&b[..b.len() - 8]).unwrap();
    assert_eq!(r.tensor_bytes(1).unwrap_err().kind, GgufError::PastEnd);
    assert_eq!(r.tensor_bytes(7).unwrap_err().kind, GgufError::NoSuchTensor(7));
    assert_eq!(packed_nbytes_of(9999, 32).unwrap_err(), GgufError::UnsupportedTensorType(9999));
    assert_eq!(
        packed_nbytes(8, 30, "t").unwrap_err().kind,
        GgufError::NotWholeBlocks { ggml_type: 8, n: 30, block: 32 }
    );
    let mut w = GgufWriter::new();
    w.add_tensor(TensorSpec { name: "q".into(), dims: vec![32], ggml_type: 8, data: vec![0; 34] });
    let q = w.to_bytes();
    let r = GgufReader::from_bytes(&q).unwrap();
    assert_eq!(r.tensor_to_f32(0).unwrap_err().kind, GgufError::NotFloat(8));
}

#[test]
fn types_have_names_and_blocks() {
    assert_eq!(ggml_type_name(12), "Q4_K");
    assert_eq!(ggml_type_name(0), "F32");
    assert_eq!(block_layout(14), Some((256, 210)));
    assert_eq!(block_layout(9999), None);
    assert_eq!(bpw(9999), None);
    assert_eq!(align_up(33, 32), 64);
    assert_eq!(align_up(64, 32), 64);
    assert_eq!(align_up(5, 0), 5);
    for v in 0..13 {
        assert_eq!(GgufType::from_u32(v).unwrap().to_u32(), v);
    }
    assert_eq!(GgufType::from_u32(13).unwrap_err(), GgufError::UnknownType(13));
}
