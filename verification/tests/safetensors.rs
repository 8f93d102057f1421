use requant::blockfloat::{f32_to_e2m1, f32_to_e4m3};
use requant::json::{parse, render, render_pretty, Json};
use requant::safetensors::load::{
    load_fp8_linear, load_nvfp4_linear, DequantizedLinear, LoadErrorKind,
};
use requant::safetensors::sharded::{shard_files, ShardedSafeTensors};
use requant::safetensors::shards::{
    index_json, partition, plan_files, shard_filename, shard_header, ShardItem,
};
use requant::safetensors::{SafeTensors, StDtype, StErrorKind};

/// Build an in-memory safetensors file from `(name, dtype, shape, bytes)` tuples.
fn build(entries: &[(&str, &str, Vec<u64>, Vec<u8>)]) -> Vec<u8> {
    let mut header = String::from("{");
    let mut blob: Vec<u8> = Vec::new();
    for (i, (name, dtype, shape, data)) in entries.iter().enumerate() {
        if i > 0 {
            header.push(',');
        }
        let start = blob.len();
        blob.extend_from_slice(data);
        let shape_s = shape.iter().map(|d| d.to_string()).collect::<Vec<_>>().join(",");
        header.push_str(&format!(
            "\"{name}\":{{\"dtype\":\"{dtype}\",\"shape\":[{shape_s}],\"data_offsets\":[{start},{}]}}",
            blob.len()
        ));
    }
    header.push('}');
    with_header(&header, &blob)
}

fn with_header(header: &str, blob: &[u8]) -> Vec<u8> {
    let mut out = Vec::new();
    out.extend_from_slice(&(header.len() as u64).to_le_bytes());
    out.extend_from_slice(header.as_bytes());
    out.extend_from_slice(blob);
    out
}

fn bits(v: &[f32]) -> Vec<u32> {
    v.iter().map(|x| x.to_bits()).collect()
}

fn values(lin: &DequantizedLinear) -> Vec<f32> {
    lin.data
        .iter()
        .map(|f| f32::from_bits(f.elem) * (f32::from_bits(f.scale) * f32::from_bits(f.global)))
        .collect()
}

#[test]
fn reads_header_and_widens_floats() {
    let f32s: Vec<u8> = [1.0f32, -2.0, 3.5, 0.0].iter().flat_map(|v| v.to_le_bytes()).collect();
    let buf = build(&[("a", "F32", vec![2, 2], f32s)]);

    let st = SafeTensors::from_bytes(&buf).unwrap();
    assert_eq!(st.names(), vec!["a"]);
    assert_eq!(st.entry("a").unwrap().rows_cols(), (2, 2));
    assert_eq!(st.to_f32("a").unwrap(), bits(&[1.0, -2.0, 3.5, 0.0]));
}

#[test]
fn nvfp4_linear_round_trips_a_known_block() {
    // 1 row × 16 cols: one NVFP4 block. Values chosen to sit exactly on the E2M1 grid so the
    // reconstruction is exact.
    let vals: Vec<f32> = vec![
        6.0, 4.0, 3.0, 2.0, 1.5, 1.0, 0.5, 0.0, -0.5, -1.0, -1.5, -2.0, -3.0, -4.0, -6.0, 0.0,
    ];
    let global = 1.0f32 / 448.0; // weight_scale_2
    let block_scale = 1.0f32 / global; // so block_scale * global == 1.0
    let sb = f32_to_e4m3(block_scale.to_bits());
    let mut packed = vec![0u8; 8];
    for j in 0..8 {
        let lo = f32_to_e2m1(vals[2 * j].to_bits());
        let hi = f32_to_e2m1(vals[2 * j + 1].to_bits());
        packed[j] = lo | (hi << 4);
    }
    let buf = build(&[
        ("l.weight", "U8", vec![1, 8], packed),
        ("l.weight_scale", "F8_E4M3", vec![1, 1], vec![sb]),
        ("l.weight_scale_2", "F32", vec![], global.to_le_bytes().to_vec()),
    ]);

    let st = SafeTensors::from_bytes(&buf).unwrap();
    let lin = load_nvfp4_linear(&st, "l").unwrap();
    assert_eq!((lin.rows, lin.cols), (1, 16));
    assert_eq!(values(&lin), vals);
}

#[test]
fn fp8_linear_applies_a_per_tensor_scale() {
    let data: Vec<u8> = (0..4).map(|_| f32_to_e4m3(2.0f32.to_bits())).collect();
    let buf = build(&[
        ("l.weight", "F8_E4M3", vec![2, 2], data),
        ("l.weight_scale", "F32", vec![], 3.0f32.to_le_bytes().to_vec()),
    ]);

    let st = SafeTensors::from_bytes(&buf).unwrap();
    let lin = load_fp8_linear(&st, "l", (128, 128)).unwrap();
    assert_eq!(values(&lin), vec![6.0, 6.0, 6.0, 6.0]);
}

#[test]
fn scales_by_row_and_by_tile_are_told_from_their_shape() {
    let one = f32_to_e4m3(1.0f32.to_bits());
    let f = |v: &[f32]| -> Vec<u8> { v.iter().flat_map(|x| x.to_le_bytes()).collect() };
    let buf = build(&[
        ("r.weight", "F8_E4M3", vec![2, 2], vec![one; 4]),
        ("r.weight_scale", "F32", vec![2, 1], f(&[2.0, 3.0])),
        ("t.weight", "F8_E4M3", vec![2, 4], vec![one; 8]),
        ("t.weight_scale_inv", "F32", vec![1, 2], f(&[5.0, 7.0])),
        ("u.weight", "F8_E4M3", vec![1, 2], vec![one; 2]),
    ]);
    let st = SafeTensors::from_bytes(&buf).unwrap();
    let r = load_fp8_linear(&st, "r", (128, 128)).unwrap();
    assert_eq!(values(&r), vec![2.0, 2.0, 3.0, 3.0]);
    let t = load_fp8_linear(&st, "t", (2, 2)).unwrap();
    assert_eq!(values(&t), vec![5.0, 5.0, 7.0, 7.0, 5.0, 5.0, 7.0, 7.0]);
    let u = load_fp8_linear(&st, "u", (2, 2)).unwrap();
    // Only scales of tiles look at the size of a tile.
    let same = load_fp8_linear(&st, "u", (0, 0)).unwrap();
    assert_eq!(same.data, u.data);
    assert_eq!(load_fp8_linear(&st, "r", (0, 0)).unwrap().data, r.data);
    assert_eq!(values(&u), vec![1.0, 1.0]);
    assert!(matches!(
        load_fp8_linear(&st, "none", (2, 2)).unwrap_err().kind,
        LoadErrorKind::NotFound
    ));
}

#[test]
fn broken_headers_are_refused() {
    let kind = |b: &[u8]| SafeTensors::from_bytes(b).map(|s| s.data_start).unwrap_err().kind;
    assert_eq!(kind(&[0; 7]), StErrorKind::TooShort);
    assert_eq!(kind(&[9, 0, 0, 0, 0, 0, 0, 0]), StErrorKind::HeaderPastEof(9));
    assert_eq!(kind(&with_header("{", &[])), StErrorKind::NotJson);
    assert_eq!(kind(&with_header("[]", &[])), StErrorKind::NotAnObject);
    assert_eq!(kind(&with_header("{\"a\":{}}", &[])), StErrorKind::MissingDtype);
    assert_eq!(
        kind(&with_header("{\"a\":{\"dtype\":\"F1\",\"shape\":[],\"data_offsets\":[0,0]}}", &[])),
        StErrorKind::UnknownDtype
    );
    assert_eq!(
        kind(&with_header("{\"a\":{\"dtype\":\"F32\",\"data_offsets\":[0,0]}}", &[])),
        StErrorKind::MissingShape
    );
    assert_eq!(
        kind(&with_header("{\"a\":{\"dtype\":\"F32\",\"shape\":[-1],\"data_offsets\":[0,0]}}", &[])),
        StErrorKind::BadShape
    );
    assert_eq!(
        kind(&with_header("{\"a\":{\"dtype\":\"F32\",\"shape\":[]}}", &[])),
        StErrorKind::MissingOffsets
    );
    assert_eq!(
        kind(&with_header("{\"a\":{\"dtype\":\"F32\",\"shape\":[],\"data_offsets\":[0]}}", &[])),
        StErrorKind::OffsetsNotTwo
    );
    assert_eq!(
        kind(&with_header("{\"a\":{\"dtype\":\"F32\",\"shape\":[],\"data_offsets\":[0,4]}}", &[])),
        StErrorKind::OffsetsPastEof { start: 0, end: 4 }
    );
}

#[test]
fn metadata_and_missing_tensors() {
    let header = "{\"__metadata__\":{\"format\":\"pt\"},\"a\":{\"dtype\":\"U8\",\"shape\":[2],\"data_offsets\":[0,2]},\"e\":{\"dtype\":\"F32\",\"shape\":[0],\"data_offsets\":[2,2]}}";
    let buf = with_header(header, &[5, 6]);
    let st = SafeTensors::from_bytes(&buf).unwrap();
    assert_eq!(st.metadata.get("format").map(|s| s.as_str()), Some("pt"));
    assert_eq!(st.bytes("a").unwrap(), &[5u8, 6][..]);
    assert_eq!(st.bytes("b").unwrap_err().kind, StErrorKind::NoSuchTensor);
    assert_eq!(st.to_f32("a").unwrap_err().kind, StErrorKind::NotFloat(StDtype::U8));
    assert_eq!(st.scalar_f32("e").unwrap_err().kind, StErrorKind::Empty);
    assert!(st.contains("a") && !st.contains("__metadata__"));
}

fn item(name: &str, n: u64) -> ShardItem {
    ShardItem { name: name.to_string(), dtype: StDtype::F32, shape: vec![n], nbytes: 4 * n }
}

#[test]
fn a_shard_header_reads_back() {
    let items = vec![item("x.weight", 2), item("a.weight", 3)];
    let mut file = shard_header(&items);
    assert_eq!(file.len() % 8, 0);
    file.extend_from_slice(&[1; 8]);
    file.extend_from_slice(&[2; 12]);
    let st = SafeTensors::from_bytes(&file).unwrap();
    assert_eq!(st.bytes("x.weight").unwrap(), &[1u8; 8][..]);
    assert_eq!(st.bytes("a.weight").unwrap(), &[2u8; 12][..]);
    assert_eq!(st.entry("a.weight").unwrap().shape, vec![3]);
}

#[test]
fn shards_are_filled_in_order() {
    assert_eq!(partition(&[4, 4, 4], 8), vec![(0, 2), (2, 3)]);
    assert_eq!(partition(&[40, 4], 8), vec![(0, 1), (1, 2)]);
    assert_eq!(partition(&[4, 40], 8), vec![(0, 1), (1, 2)]);
    assert_eq!(shard_filename(1, 2), "model-00001-of-00002.safetensors");
    let items = vec![item("a", 1), item("b", 1), item("c", 1)];
    let files = plan_files(&items, 8);
    assert_eq!(files.len(), 2);
    assert_eq!((files[0].first, files[0].end), (0, 2));
    assert_eq!(files[1].name, "model-00002-of-00002.safetensors");
    let index = index_json(&items, 8);
    let map = index.get("weight_map").unwrap();
    assert_eq!(map.str_at("a"), Some("model-00001-of-00002.safetensors"));
    assert_eq!(map.str_at("c"), Some("model-00002-of-00002.safetensors"));
    assert_eq!(index.get("metadata").unwrap().u64_at("total_size"), Some(12));
    assert_eq!(
        shard_files(&index).unwrap(),
        vec!["model-00001-of-00002.safetensors", "model-00002-of-00002.safetensors"]
    );
}

#[test]
fn shards_answer_as_one_checkpoint() {
    let a = build(&[("x", "F32", vec![1], 1.0f32.to_le_bytes().to_vec())]);
    let b = build(&[("y", "BF16", vec![1], half::bf16::from_f32(2.5).to_le_bytes().to_vec())]);
    let all = ShardedSafeTensors::from_shards(vec![
        SafeTensors::from_bytes(&a).unwrap(),
        SafeTensors::from_bytes(&b).unwrap(),
    ]);
    assert_eq!(all.names(), vec!["x", "y"]);
    assert_eq!(all.scalar_f32("y").unwrap(), 2.5f32.to_bits());
    assert_eq!(all.to_f32("x").unwrap(), bits(&[1.0]));
    assert_eq!(all.entry("y").unwrap().dtype, StDtype::BF16);
    assert_eq!(all.bytes("z").unwrap_err().kind, StErrorKind::NoSuchTensor);
    assert!(all.contains("x") && all.shard_of("z").is_none());
}

#[test]
fn dtypes_have_names_and_sizes() {
    for (name, size) in [
        ("BOOL", 1),
        ("U8", 1),
        ("I8", 1),
        ("F8_E5M2", 1),
        ("F8_E4M3", 1),
        ("I16", 2),
        ("U16", 2),
        ("F16", 2),
        ("BF16", 2),
        ("I32", 4),
        ("U32", 4),
        ("F32", 4),
        ("F64", 8),
        ("I64", 8),
        ("U64", 8),
    ] {
        let d = StDtype::parse(name).unwrap();
        assert_eq!(d.name(), name);
        assert_eq!(d.size(), size);
    }
    assert!(StDtype::parse("F4").is_none());
}

#[test]
fn doubles_narrow_to_the_nearest_single() {
    for x in [0.1f64, -1.0e300, 1.0e-310, 3.0, 16777217.0, f64::INFINITY, 1.0e-45, 7.0e-46] {
        let buf = build(&[("d", "F64", vec![1], x.to_le_bytes().to_vec())]);
        let st = SafeTensors::from_bytes(&buf).unwrap();
        assert_eq!(st.scalar_f32("d").unwrap(), (x as f32).to_bits(), "{x}");
    }
}

#[test]
fn text_reads_back_as_it_was_rendered() {
    let text = "{\"b\":[1,-2,true,null],\"a\":{\"k\":\"quote \\\" and \u{fc}\"}}".as_bytes();
    let v = parse(text).unwrap();
    assert_eq!(v.get("a").unwrap().str_at("k"), Some("quote \" and \u{fc}"));
    match v.get("b").unwrap() {
        Json::List(l) => {
            assert_eq!(l[0].as_u64(), Some(1));
            assert!(matches!(l[1], Json::Int(-2)));
            assert!(matches!(l[2], Json::Bool(true)));
            assert!(matches!(l[3], Json::Null));
        }
        _ => panic!("a list was expected"),
    }
    // Keys come in their order.
    let out = "{\"a\":{\"k\":\"quote \\\" and \u{fc}\"},\"b\":[1,-2,true,null]}".as_bytes();
    assert_eq!(render(&v), out);
    assert_eq!(render(&parse(&render_pretty(&v)).unwrap()), out);
    assert!(render_pretty(&v).len() > out.len());
    let mut spaced = out.to_vec();
    spaced.extend_from_slice(b"   ");
    assert_eq!(render(&parse(&spaced).unwrap()), out);
    assert!(parse(b"{} {}").is_none());
    assert!(parse(&[0xff]).is_none());
}

#[test]
fn fractions_are_held_by_their_bits() {
    assert!(matches!(parse(b"0.5"), Some(Json::Float(x)) if x == 0.5f64.to_bits()));
    assert!(matches!(parse(b"-1e-3"), Some(Json::Float(x)) if x == (-0.001f64).to_bits()));
    assert!(matches!(parse(b"18446744073709551615"), Some(Json::UInt(u64::MAX))));
    assert!(matches!(parse(b"-9223372036854775808"), Some(Json::Int(i64::MIN))));
}
