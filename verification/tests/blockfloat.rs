use requant::blockfloat::dequant::{
    dequant_fp8, dequant_mxfp4_ggml_row, dequant_mxfp4_ocp, dequant_mxfp8, dequant_nvfp4,
    dequant_nvfp4_ggml_row, dequantize_blockfloat, unpack_fp4, BlockFloatError, Factors, Fp8Scale,
    ScaleSource,
};
use requant::blockfloat::{
    is_fp4_family, is_fp8_family, is_gguf_type, E2m1Rounding, NibbleOrder, E2M1_MAX, E4M3_MAX,
    E5M2_MAX, F32_ONE, GGML_TYPE_MXFP4, GGML_TYPE_NVFP4, RQ_TYPE_FP8_E4M3, RQ_TYPE_FP8_E5M2,
    RQ_TYPE_MXFP4_OCP, RQ_TYPE_MXFP8_E4M3, RQ_TYPE_NVFP4,
};

const E2M1_TABLE: [f32; 16] = [
    0.0, 0.5, 1.0, 1.5, 2.0, 3.0, 4.0, 6.0, -0.0, -0.5, -1.0, -1.5, -2.0, -3.0, -4.0, -6.0,
];

fn e2m1_to_f32(code: u8) -> f32 {
    f32::from_bits(requant::blockfloat::e2m1_to_f32(code))
}

fn f32_to_e2m1(v: f32) -> u8 {
    requant::blockfloat::f32_to_e2m1(v.to_bits())
}

fn f32_to_e2m1_with(v: f32, rounding: E2m1Rounding) -> u8 {
    requant::blockfloat::f32_to_e2m1_with(v.to_bits(), rounding)
}

fn e4m3_to_f32(b: u8) -> f32 {
    f32::from_bits(requant::blockfloat::e4m3_to_f32(b))
}

fn f32_to_e4m3(v: f32) -> u8 {
    requant::blockfloat::f32_to_e4m3(v.to_bits())
}

fn e5m2_to_f32(b: u8) -> f32 {
    f32::from_bits(requant::blockfloat::e5m2_to_f32(b))
}

fn f32_to_e5m2(v: f32) -> u8 {
    requant::blockfloat::f32_to_e5m2(v.to_bits())
}

fn ue4m3_to_f32(x: u8) -> f32 {
    f32::from_bits(requant::blockfloat::ue4m3_to_f32(x))
}

fn f32_to_ue4m3(v: f32) -> u8 {
    requant::blockfloat::f32_to_ue4m3(v.to_bits())
}

fn e8m0_to_f32(e: u8) -> f32 {
    f32::from_bits(requant::blockfloat::e8m0_to_f32(e))
}

fn e8m0_to_f32_half(e: u8) -> f32 {
    f32::from_bits(requant::blockfloat::e8m0_to_f32_half(e))
}

fn f32_to_e8m0(v: f32) -> u8 {
    requant::blockfloat::f32_to_e8m0(v.to_bits())
}

fn exp2i(n: i32) -> f32 {
    f32::from_bits(requant::blockfloat::exp2i(n))
}

fn product(f: &Factors) -> f32 {
    f32::from_bits(f.elem) * (f32::from_bits(f.scale) * f32::from_bits(f.global))
}

fn products(v: &[Factors]) -> Vec<f32> {
    v.iter().map(product).collect()
}

#[test]
fn e2m1_round_trips_every_code() {
    for code in 0u8..16 {
        let v = e2m1_to_f32(code);
        let back = f32_to_e2m1(v);
        assert_eq!(e2m1_to_f32(back), v, "code {code} -> {v} -> {back}");
    }
}

#[test]
fn e2m1_saturates_and_rounds() {
    assert_eq!(e2m1_to_f32(f32_to_e2m1(100.0)), 6.0);
    assert_eq!(e2m1_to_f32(f32_to_e2m1(-100.0)), -6.0);
    assert_eq!(e2m1_to_f32(f32_to_e2m1(0.6)), 0.5);
    assert_eq!(e2m1_to_f32(f32_to_e2m1(0.8)), 1.0);
    // Tie at 0.75: HalfDown keeps 0.5, NearestEven promotes to 1.0.
    assert_eq!(e2m1_to_f32(f32_to_e2m1_with(0.75, E2m1Rounding::HalfDown)), 0.5);
    assert_eq!(e2m1_to_f32(f32_to_e2m1_with(0.75, E2m1Rounding::NearestEven)), 1.0);
    // Tie at 5.0: HalfDown keeps 4.0; NearestEven also keeps 4.0 (code 6 is even).
    assert_eq!(e2m1_to_f32(f32_to_e2m1_with(5.0, E2m1Rounding::HalfDown)), 4.0);
    assert_eq!(e2m1_to_f32(f32_to_e2m1_with(5.0, E2m1Rounding::NearestEven)), 4.0);
}

#[test]
fn e4m3_hits_the_documented_extremes() {
    assert_eq!(e4m3_to_f32(0x7e), 448.0);
    assert_eq!(e4m3_to_f32(0xfe), -448.0);
    assert!(e4m3_to_f32(0x7f).is_nan());
    assert_eq!(e4m3_to_f32(0x00), 0.0);
    // Smallest subnormal = 2^-9.
    assert_eq!(e4m3_to_f32(0x01), exp2i(-9));
    // Smallest normal = 2^-6.
    assert_eq!(e4m3_to_f32(0x08), exp2i(-6));
    assert_eq!(e4m3_to_f32(f32_to_e4m3(1.0)), 1.0);
    assert_eq!(e4m3_to_f32(f32_to_e4m3(1000.0)), 448.0);
    assert_eq!(e4m3_to_f32(f32_to_e4m3(-1000.0)), -448.0);
}

#[test]
fn ue4m3_matches_ggml_scale_convention() {
    for v in [2.0f32.powi(-8), 0.25, 0.5, 1.0, 3.0, 12.0, 448.0] {
        let code = f32_to_ue4m3(v);
        let decoded_twice = 2.0 * ue4m3_to_f32(code);
        assert!(decoded_twice.is_finite() && decoded_twice > 0.0, "{v} -> {code:#x}");
    }
    assert_eq!(f32_to_ue4m3(0.0), 0);
    assert_eq!(ue4m3_to_f32(0), 0.0);
}

#[test]
fn e4m3_round_trips_every_finite_code() {
    for b in 0u8..=255 {
        if (b & 0x7f) == 0x7f {
            continue; // NaN
        }
        let v = e4m3_to_f32(b);
        assert_eq!(f32_to_e4m3(v), b, "byte {b:#04x} -> {v}");
    }
}

#[test]
fn e5m2_round_trips_every_finite_code() {
    for b in 0u8..=255 {
        if (b >> 2) & 0x1f == 0x1f {
            continue; // inf / NaN
        }
        let v = e5m2_to_f32(b);
        assert_eq!(f32_to_e5m2(v), b, "byte {b:#04x} -> {v}");
    }
}

#[test]
fn e8m0_half_is_exactly_half() {
    for e in 1u8..=254 {
        assert_eq!(e8m0_to_f32_half(e) * 2.0, e8m0_to_f32(e), "e={e}");
    }
    assert_eq!(e8m0_to_f32(127), 1.0);
    assert_eq!(f32_to_e8m0(1.0), 127);
    assert_eq!(f32_to_e8m0(0.5), 126);
    // Truncating: 1.9 has floor(log2) = 0.
    assert_eq!(f32_to_e8m0(1.9), 127);
    assert_eq!(f32_to_e8m0(0.0), 0);
    assert_eq!(f32_to_e8m0(-3.0), 0);
}

#[test]
fn nvfp4_reconstructs_a_hand_built_block() {
    // One block of 16: codes 0..15 with scale 1.0 and global 1.0 reproduce E2M1_TABLE.
    let mut data = vec![0u8; 8];
    for j in 0..8 {
        data[j] = (2 * j) as u8 | (((2 * j + 1) as u8) << 4);
    }
    let scales = [f32_to_e4m3(1.0)];
    let out = products(&dequant_nvfp4(&data, &scales, 1.0f32.to_bits(), 16).unwrap());
    for j in 0..16 {
        assert_eq!(out[j], E2M1_TABLE[j], "element {j}");
    }
}

#[test]
fn ggml_mxfp4_uses_split_half_nibbles() {
    // e = 127 -> half-scale 0.5, doubled table -> element scale 1.0.
    let mut blk = vec![0u8; 17];
    blk[0] = 127;
    blk[1] = 0x07; // low nibble: element 0 = code 7 (6.0); high nibble: element 16 = code 0
    let out = products(&dequant_mxfp4_ggml_row(&blk, 32));
    assert_eq!(out[0], 6.0);
    assert_eq!(out[16], 0.0);
}

#[test]
fn fp8_block2d_indexes_the_right_scale() {
    // 4x4 tensor, 2x2 scale blocks -> 4 scales laid out row-major.
    let scales: Vec<u32> = [1.0f32, 2.0, 4.0, 8.0].iter().map(|v| v.to_bits()).collect();
    let data: Vec<u8> = (0..16).map(|_| f32_to_e4m3(1.0)).collect();
    let out = products(
        &dequant_fp8(
            RQ_TYPE_FP8_E4M3,
            &data,
            4,
            4,
            Fp8Scale::Block2d { scales: &scales, bh: 2, bw: 2 },
        )
        .unwrap(),
    );
    assert_eq!(out[0], 1.0); // (0,0) -> block (0,0)
    assert_eq!(out[2], 2.0); // (0,2) -> block (0,1)
    assert_eq!(out[8], 4.0); // (2,0) -> block (1,0)
    assert_eq!(out[10], 8.0); // (2,2) -> block (1,1)
}

#[test]
fn type_id_namespaces_do_not_overlap() {
    assert!(is_gguf_type(GGML_TYPE_MXFP4));
    assert!(!is_gguf_type(RQ_TYPE_NVFP4));
    assert!(!is_gguf_type(RQ_TYPE_FP8_E4M3));
    assert!(is_fp4_family(RQ_TYPE_NVFP4));
    assert!(!is_fp4_family(RQ_TYPE_FP8_E4M3));
    assert!(is_fp8_family(RQ_TYPE_MXFP8_E4M3));
}

#[test]
fn every_e2m1_code_has_its_table_value() {
    for code in 0u8..16 {
        assert_eq!(e2m1_to_f32(code).to_bits(), E2M1_TABLE[code as usize].to_bits());
    }
    // Only the low nibble counts.
    assert_eq!(e2m1_to_f32(0xf7), 6.0);
}

#[test]
fn maxima_are_the_greatest_values_of_their_formats() {
    assert_eq!(f32::from_bits(E2M1_MAX), 6.0);
    assert_eq!(f32::from_bits(E4M3_MAX), 448.0);
    assert_eq!(f32::from_bits(E5M2_MAX), 57344.0);
    assert_eq!(f32::from_bits(F32_ONE), 1.0);
    assert_eq!(e5m2_to_f32(f32_to_e5m2(1.0e9)), 57344.0);
    assert_eq!(e5m2_to_f32(f32_to_e5m2(-1.0e9)), -57344.0);
}

#[test]
fn eight_bit_codes_are_the_nearest() {
    // A walk over many values: no other finite code is nearer, and a tie goes to the even code.
    let mut x = 0.0007f32;
    while x < 500.0 {
        for v in [x, -x] {
            let got = f32_to_e4m3(v);
            let d = (e4m3_to_f32(got) as f64 - v as f64).abs();
            for b in 0u8..=255 {
                if b & 0x7f != 0x7f {
                    let other = (e4m3_to_f32(b) as f64 - v as f64).abs();
                    assert!(d <= other, "{v}: {got:#x} against {b:#x}");
                    if d == other && e4m3_to_f32(b) != e4m3_to_f32(got) {
                        assert_eq!(got & 1, 0);
                    }
                }
            }
        }
        x *= 1.37;
    }
    assert_eq!(f32_to_e4m3(1.0625), 0x38); // half-way between 0x38 and 0x39
    assert_eq!(f32_to_e4m3(1.1875), 0x3a); // half-way between 0x39 and 0x3a
}

#[test]
fn no_number_has_the_code_of_no_number() {
    assert!(e4m3_to_f32(f32_to_e4m3(f32::NAN)).is_nan());
    assert!(e5m2_to_f32(f32_to_e5m2(f32::NAN)).is_nan());
    assert_eq!(f32_to_ue4m3(f32::NAN), 0);
    assert_eq!(ue4m3_to_f32(0x7f), 0.0);
    assert!(e8m0_to_f32(255).is_nan());
}

#[test]
fn powers_of_two_are_exact() {
    for n in -126..=127 {
        assert_eq!(exp2i(n), 2.0f32.powi(n), "n={n}");
    }
    for e in 1u8..=254 {
        assert_eq!(f32_to_e8m0(e8m0_to_f32(e)), e);
    }
}

#[test]
fn nibbles_come_in_either_order() {
    let bytes = [0x21u8, 0x43];
    assert_eq!(unpack_fp4(&bytes, 4, 4, NibbleOrder::Adjacent), vec![1, 2, 3, 4]);
    assert_eq!(unpack_fp4(&bytes, 4, 4, NibbleOrder::SplitHalf), vec![1, 3, 2, 4]);
    assert_eq!(unpack_fp4(&bytes, 3, 4, NibbleOrder::Adjacent), vec![1, 2, 3]);
    // Adjacent nibbles stand in no blocks.
    assert_eq!(unpack_fp4(&bytes, 3, 0, NibbleOrder::Adjacent), vec![1, 2, 3]);
    assert_eq!(unpack_fp4(&bytes, 4, 3, NibbleOrder::Adjacent), vec![1, 2, 3, 4]);
}

#[test]
fn self_contained_nvfp4_blocks_have_four_scales() {
    let mut blk = vec![0u8; 36];
    for g in 0..4 {
        blk[g] = f32_to_ue4m3(1.0);
        blk[4 + 8 * g] = 0x72; // element 0 of the group is code 2, element 8 is code 7
    }
    let out = products(&dequant_nvfp4_ggml_row(&blk, 64));
    for g in 0..4 {
        assert_eq!(out[16 * g], 1.0);
        assert_eq!(out[16 * g + 8], 6.0);
        assert_eq!(out[16 * g + 1], 0.0);
    }
}

#[test]
fn scales_aside_belong_to_their_blocks() {
    let data = vec![0x22u8; 32]; // 64 elements of one
    let out = products(&dequant_mxfp4_ocp(&data, &[127, 128], 64).unwrap());
    assert_eq!((out[0], out[31], out[32], out[63]), (1.0, 1.0, 2.0, 2.0));
    let data: Vec<u8> = (0..64).map(|_| f32_to_e4m3(1.0)).collect();
    let out = products(&dequant_mxfp8(&data, &[127, 126], 64).unwrap());
    assert_eq!((out[0], out[31], out[32], out[63]), (1.0, 1.0, 0.5, 0.5));
    // A block whose scale is no number counts as zero.
    let out = products(&dequant_mxfp8(&data, &[255, 127], 64).unwrap());
    assert_eq!((out[0], out[32]), (0.0, 1.0));
}

#[test]
fn short_or_broken_blocks_are_refused() {
    assert_eq!(
        dequant_nvfp4(&[0; 8], &[0], F32_ONE, 15).unwrap_err(),
        BlockFloatError::NotWholeBlocks { n: 15, block: 16 }
    );
    assert_eq!(
        dequant_nvfp4(&[0; 7], &[0], F32_ONE, 16).unwrap_err(),
        BlockFloatError::DataTooShort { have: 7, need: 8 }
    );
    assert_eq!(
        dequant_nvfp4(&[0; 8], &[], F32_ONE, 16).unwrap_err(),
        BlockFloatError::ScalesTooShort { have: 0, need: 1 }
    );
    assert_eq!(
        dequant_fp8(RQ_TYPE_NVFP4, &[0; 4], 2, 2, Fp8Scale::Unit).unwrap_err(),
        BlockFloatError::NotDenseFp8(RQ_TYPE_NVFP4)
    );
    assert_eq!(
        dequantize_blockfloat(RQ_TYPE_NVFP4, &[0; 8], 1, 16, ScaleSource::Interleaved).unwrap_err(),
        BlockFloatError::NotBlockFloat(RQ_TYPE_NVFP4)
    );
}

#[test]
fn one_entry_serves_every_layout() {
    let one = f32_to_e4m3(1.0);
    let fp8 = vec![one; 4];
    let out = dequantize_blockfloat(
        RQ_TYPE_FP8_E4M3,
        &fp8,
        2,
        2,
        ScaleSource::Float(Fp8Scale::PerTensor(3.0f32.to_bits())),
    );
    assert_eq!(products(&out.unwrap()), vec![3.0; 4]);
    let rows = [2.0f32.to_bits(), 5.0f32.to_bits()];
    let e5 = vec![f32_to_e5m2(1.0); 4];
    let out = dequantize_blockfloat(
        RQ_TYPE_FP8_E5M2,
        &e5,
        2,
        2,
        ScaleSource::Float(Fp8Scale::PerChannel(&rows)),
    );
    assert_eq!(products(&out.unwrap()), vec![2.0, 2.0, 5.0, 5.0]);
    let data = vec![0x22u8; 16];
    let out = dequantize_blockfloat(
        RQ_TYPE_MXFP4_OCP,
        &data,
        1,
        32,
        ScaleSource::Sidecar { scales: &[129], global: F32_ONE },
    );
    assert_eq!(products(&out.unwrap()), vec![4.0; 32]);
    let mut blk = vec![0x22u8; 36];
    blk[0] = f32_to_ue4m3(1.0);
    let out = dequantize_blockfloat(GGML_TYPE_NVFP4, &blk, 1, 64, ScaleSource::Interleaved);
    assert_eq!(products(&out.unwrap())[0], 1.0);
}
