//! What the types of tensors promise of the bytes that a tensor takes.
use vstd::prelude::*;
use crate::gguf::geometry;
use crate::gguf::geometry::{
    align_up, block_layout, bpw, count_elems, ggml_type_name, packed_nbytes_of, TensorError,
};
use crate::gguf::reader::{tensor_nbytes, TensorInfo};
use crate::gguf::value::GgufError;
use crate::text;

verus! {

/// The type has this number, blocks of so many elements, and so many sixteenths of a bit for each
/// element, scales and offsets counted in.
pub open spec fn has_format(
    t: u32,
    layout: Option<(usize, usize)>,
    number: u32,
    elements: usize,
    sixteenths: int,
) -> bool {
    &&& t == number
    &&& layout matches Some((block, bytes)) && block == elements && bytes * 128 == sixteenths
        * elements
}

/// The types by their names: which number a type has in a file, how many elements make a block, and
/// how many bits a weight takes on average.
pub proof fn law_formats_by_name(t: u32, name: String, layout: Option<(usize, usize)>)
    requires
        call_ensures(ggml_type_name, (t,), name),
        call_ensures(block_layout, (t,), layout),
    ensures
        name@ == "F32"@ ==> has_format(t, layout, 0, 1, 512),
        name@ == "F16"@ ==> has_format(t, layout, 1, 1, 256),
        name@ == "BF16"@ ==> has_format(t, layout, 30, 1, 256),
        name@ == "Q4_0"@ ==> has_format(t, layout, 2, 32, 72),
        name@ == "Q4_1"@ ==> has_format(t, layout, 3, 32, 80),
        name@ == "Q5_0"@ ==> has_format(t, layout, 6, 32, 88),
        name@ == "Q5_1"@ ==> has_format(t, layout, 7, 32, 96),
        name@ == "Q8_0"@ ==> has_format(t, layout, 8, 32, 136),
        name@ == "Q8_1"@ ==> has_format(t, layout, 9, 32, 144),
        name@ == "Q1_0"@ ==> has_format(t, layout, 41, 128, 18),
        name@ == "Q2_0"@ ==> has_format(t, layout, 42, 64, 36),
        name@ == "Q2_K"@ ==> has_format(t, layout, 10, 256, 42),
        name@ == "Q3_K"@ ==> has_format(t, layout, 11, 256, 55),
        name@ == "Q4_K"@ ==> has_format(t, layout, 12, 256, 72),
        name@ == "Q5_K"@ ==> has_format(t, layout, 13, 256, 88),
        name@ == "Q6_K"@ ==> has_format(t, layout, 14, 256, 105),
        name@ == "Q8_K"@ ==> has_format(t, layout, 15, 256, 146),
        name@ == "IQ2_XXS"@ ==> has_format(t, layout, 16, 256, 33),
        name@ == "IQ2_XS"@ ==> has_format(t, layout, 17, 256, 37),
        name@ == "IQ3_XXS"@ ==> has_format(t, layout, 18, 256, 49),
        name@ == "IQ1_S"@ ==> has_format(t, layout, 19, 256, 25),
        name@ == "IQ4_NL"@ ==> has_format(t, layout, 20, 32, 72),
        name@ == "IQ3_S"@ ==> has_format(t, layout, 21, 256, 55),
        name@ == "IQ2_S"@ ==> has_format(t, layout, 22, 256, 41),
        name@ == "IQ4_XS"@ ==> has_format(t, layout, 23, 256, 68),
        name@ == "IQ1_M"@ ==> has_format(t, layout, 29, 256, 28),
        name@ == "TQ1_0"@ ==> has_format(t, layout, 34, 256, 27),
        name@ == "TQ2_0"@ ==> has_format(t, layout, 35, 256, 33),
        name@ == "MXFP4"@ ==> has_format(t, layout, 39, 32, 68),
        name@ == "NVFP4_GGUF"@ ==> has_format(t, layout, 40, 64, 72),
        name@ == "NVFP4"@ ==> has_format(t, layout, 0x8000, 16, 72),
        name@ == "FP8_E4M3"@ ==> has_format(t, layout, 0x8001, 1, 128),
        name@ == "FP8_E5M2"@ ==> has_format(t, layout, 0x8002, 1, 128),
        name@ == "MXFP8"@ ==> has_format(t, layout, 0x8003, 32, 132),
        name@ == "MXFP4_OCP"@ ==> has_format(t, layout, 0x8004, 32, 68),
{
    geometry::law_no_two_types_share_a_name(t, 0);
    geometry::law_no_two_types_share_a_name(t, 1);
    geometry::law_no_two_types_share_a_name(t, 30);
    geometry::law_no_two_types_share_a_name(t, 2);
    geometry::law_no_two_types_share_a_name(t, 3);
    geometry::law_no_two_types_share_a_name(t, 6);
    geometry::law_no_two_types_share_a_name(t, 7);
    geometry::law_no_two_types_share_a_name(t, 8);
    geometry::law_no_two_types_share_a_name(t, 9);
    geometry::law_no_two_types_share_a_name(t, 41);
    geometry::law_no_two_types_share_a_name(t, 42);
    geometry::law_no_two_types_share_a_name(t, 10);
    geometry::law_no_two_types_share_a_name(t, 11);
    geometry::law_no_two_types_share_a_name(t, 12);
    geometry::law_no_two_types_share_a_name(t, 13);
    geometry::law_no_two_types_share_a_name(t, 14);
    geometry::law_no_two_types_share_a_name(t, 15);
    geometry::law_no_two_types_share_a_name(t, 16);
    geometry::law_no_two_types_share_a_name(t, 17);
    geometry::law_no_two_types_share_a_name(t, 18);
    geometry::law_no_two_types_share_a_name(t, 19);
    geometry::law_no_two_types_share_a_name(t, 20);
    geometry::law_no_two_types_share_a_name(t, 21);
    geometry::law_no_two_types_share_a_name(t, 22);
    geometry::law_no_two_types_share_a_name(t, 23);
    geometry::law_no_two_types_share_a_name(t, 29);
    geometry::law_no_two_types_share_a_name(t, 34);
    geometry::law_no_two_types_share_a_name(t, 35);
    geometry::law_no_two_types_share_a_name(t, 39);
    geometry::law_no_two_types_share_a_name(t, 40);
    geometry::law_no_two_types_share_a_name(t, 0x8000);
    geometry::law_no_two_types_share_a_name(t, 0x8001);
    geometry::law_no_two_types_share_a_name(t, 0x8002);
    geometry::law_no_two_types_share_a_name(t, 0x8003);
    geometry::law_no_two_types_share_a_name(t, 0x8004);
}

/// Bits for each weight are the bits of a block over its elements.
pub proof fn law_bits_of_a_block(t: u32, layout: Option<(usize, usize)>, r: Option<(u64, u64)>)
    requires
        call_ensures(block_layout, (t,), layout),
        call_ensures(bpw, (t,), r),
    ensures
        r is Some <==> layout is Some,
        layout matches Some((block, bytes)) ==> r matches Some((bits, elements)) && bits == 8 * bytes
            && elements == block,
{
    geometry::lemma_blocks_not_empty(t);
}

/// The number of elements is the product of the dimensions: one without dimensions, and with one
/// dimension more so many times as many. There is none only where it does not fit in 64 bits.
pub proof fn law_elements_are_a_product(
    dims: &[u64],
    longer: &[u64],
    d: u64,
    x: Option<u64>,
    y: Option<u64>,
)
    requires
        longer@ == dims@.push(d),
        call_ensures(count_elems, (dims,), x),
        call_ensures(count_elems, (longer,), y),
    ensures
        dims@.len() == 0 ==> x == Some(1u64),
        x matches Some(n) ==> (y is Some <==> n * d <= u64::MAX),
        x is None ==> y is None,
        y matches Some(n) ==> n == x->0 * d,
{
    assert(longer@.drop_last() =~= dims@);
}

/// Elements take the bytes of their blocks: as often as a block has its elements in them, they have
/// its bytes. It fails exactly for a type that has no blocks, for elements that leave a rest, and
/// for more bytes than 64 bits count.
pub proof fn law_elements_take_whole_blocks(
    t: u32,
    n: u64,
    layout: Option<(usize, usize)>,
    r: Result<u64, GgufError>,
)
    requires
        call_ensures(block_layout, (t,), layout),
        call_ensures(packed_nbytes_of, (t, n), r),
    ensures
        layout is None <==> r == Err::<u64, _>(GgufError::UnsupportedTensorType(t)),
        layout matches Some((block, bytes)) ==> {
            &&& n as int % block as int != 0 <==> r == Err::<u64, _>(
                GgufError::NotWholeBlocks { ggml_type: t, n, block: block as u64 },
            )
            &&& r matches Ok(v) ==> v * block == n * bytes
            &&& n as int % block as int == 0 && n * bytes <= u64::MAX ==> r is Ok
        },
{
    geometry::lemma_blocks_not_empty(t);
    if let Some((block, bytes)) = layout {
        if n as int % block as int == 0 {
            assert(n / block as u64 * bytes as u64 * block as u64 == n * bytes) by (nonlinear_arith)
                requires
                    block > 0,
                    n as int % block as int == 0,
            ;
            assert(n / block as u64 * bytes as u64 <= n * bytes) by (nonlinear_arith)
                requires
                    block > 0,
            ;
        }
    }
}

/// A tensor takes the bytes that its elements take in its type.
pub proof fn law_tensors_take_the_bytes_of_their_elements(
    info: &TensorInfo,
    n: Option<u64>,
    size: Result<u64, GgufError>,
    r: Result<u64, TensorError>,
)
    requires
        geometry::elem_count(info.dims@) == n,
        n is Some ==> call_ensures(packed_nbytes_of, (info.ggml_type, n->0), size),
        call_ensures(tensor_nbytes, (info,), r),
    ensures
        n is None ==> (r matches Err(e) && e.kind == GgufError::SizeOverflow),
        n is Some ==> (r matches Ok(v) ==> size == Ok::<u64, GgufError>(v)),
        n is Some ==> (r matches Err(e) ==> size == Err::<u64, GgufError>(e.kind)),
        r matches Err(e) ==> e.tensor@ == info.name@,
{
}

/// Rounding up reaches the first multiple at or behind a number.
pub proof fn law_rounding_up(x: u64, a: u64, r: u64)
    requires
        call_ensures(align_up, (x, a), r),
    ensures
        x <= r,
        a == 0 ==> r == x,
        a > 0 ==> r < x + a && r as int % a as int == 0,
{
    geometry::lemma_aligned(x as nat, a as nat);
}

/// A type that is not known is named by its number.
pub proof fn law_unknown_types_are_named_by_number(t: u32, layout: Option<(usize, usize)>, r: String)
    requires
        call_ensures(block_layout, (t,), layout),
        call_ensures(ggml_type_name, (t,), r),
    ensures
        layout is None <==> r@ == "type"@ + text::decimal(t as nat),
{
    geometry::law_no_two_types_share_a_name(t, t);
}

} // verus!
