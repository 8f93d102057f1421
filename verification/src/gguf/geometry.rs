//! Sizes and names of tensor types.
use vstd::prelude::*;
use crate::blockfloat::{GGML_TYPE_MXFP4, GGML_TYPE_NVFP4};
use crate::blockfloat::{RQ_TYPE_FP8_E4M3, RQ_TYPE_FP8_E5M2, RQ_TYPE_MXFP4_OCP, RQ_TYPE_MXFP8_E4M3, RQ_TYPE_NVFP4};
use crate::gguf::value::GgufError;
use crate::text;

verus! {

/// A failure that concerns one tensor.
#[derive(Debug)]
pub struct TensorError {
    /// The tensor's name; empty where no tensor was found.
    pub tensor: String,
    pub kind: GgufError,
}

/// Elements and bytes of one block of a tensor type.
pub open spec fn layout_of(ggml_type: u32) -> Option<(usize, usize)> {
    if ggml_type == 0 {
        Some((1, 4))
    } else if ggml_type == 1 {
        Some((1, 2))
    } else if ggml_type == 30 {
        Some((1, 2))
    } else if ggml_type == 2 {
        Some((32, 18))
    } else if ggml_type == 3 {
        Some((32, 20))
    } else if ggml_type == 6 {
        Some((32, 22))
    } else if ggml_type == 7 {
        Some((32, 24))
    } else if ggml_type == 8 {
        Some((32, 34))
    } else if ggml_type == 9 {
        Some((32, 36))
    } else if ggml_type == 41 {
        Some((128, 18))
    } else if ggml_type == 42 {
        Some((64, 18))
    } else if ggml_type == 10 {
        Some((256, 84))
    } else if ggml_type == 11 {
        Some((256, 110))
    } else if ggml_type == 12 {
        Some((256, 144))
    } else if ggml_type == 13 {
        Some((256, 176))
    } else if ggml_type == 14 {
        Some((256, 210))
    } else if ggml_type == 15 {
        Some((256, 292))
    } else if ggml_type == 16 {
        Some((256, 66))
    } else if ggml_type == 17 {
        Some((256, 74))
    } else if ggml_type == 18 {
        Some((256, 98))
    } else if ggml_type == 19 {
        Some((256, 50))
    } else if ggml_type == 20 {
        Some((32, 18))
    } else if ggml_type == 21 {
        Some((256, 110))
    } else if ggml_type == 22 {
        Some((256, 82))
    } else if ggml_type == 23 {
        Some((256, 136))
    } else if ggml_type == 29 {
        Some((256, 56))
    } else if ggml_type == 34 {
        Some((256, 54))
    } else if ggml_type == 35 {
        Some((256, 66))
    } else if ggml_type == GGML_TYPE_MXFP4 {
        Some((32, 17))
    } else if ggml_type == GGML_TYPE_NVFP4 {
        Some((64, 36))
    } else if ggml_type == RQ_TYPE_NVFP4 {
        Some((16, 9))
    } else if ggml_type == RQ_TYPE_MXFP4_OCP {
        Some((32, 17))
    } else if ggml_type == RQ_TYPE_MXFP8_E4M3 {
        Some((32, 33))
    } else if ggml_type == RQ_TYPE_FP8_E4M3 {
        Some((1, 1))
    } else if ggml_type == RQ_TYPE_FP8_E5M2 {
        Some((1, 1))
    } else {
        None
    }
}

/// The name of a tensor type: its own, or `type` and its number.
pub open spec fn name_of(ggml_type: u32) -> Seq<char> {
    if ggml_type == 0 {
        "F32"@
    } else if ggml_type == 1 {
        "F16"@
    } else if ggml_type == 30 {
        "BF16"@
    } else if ggml_type == 2 {
        "Q4_0"@
    } else if ggml_type == 3 {
        "Q4_1"@
    } else if ggml_type == 6 {
        "Q5_0"@
    } else if ggml_type == 7 {
        "Q5_1"@
    } else if ggml_type == 8 {
        "Q8_0"@
    } else if ggml_type == 9 {
        "Q8_1"@
    } else if ggml_type == 41 {
        "Q1_0"@
    } else if ggml_type == 42 {
        "Q2_0"@
    } else if ggml_type == 10 {
        "Q2_K"@
    } else if ggml_type == 11 {
        "Q3_K"@
    } else if ggml_type == 12 {
        "Q4_K"@
    } else if ggml_type == 13 {
        "Q5_K"@
    } else if ggml_type == 14 {
        "Q6_K"@
    } else if ggml_type == 15 {
        "Q8_K"@
    } else if ggml_type == 16 {
        "IQ2_XXS"@
    } else if ggml_type == 17 {
        "IQ2_XS"@
    } else if ggml_type == 18 {
        "IQ3_XXS"@
    } else if ggml_type == 19 {
        "IQ1_S"@
    } else if ggml_type == 20 {
        "IQ4_NL"@
    } else if ggml_type == 21 {
        "IQ3_S"@
    } else if ggml_type == 22 {
        "IQ2_S"@
    } else if ggml_type == 23 {
        "IQ4_XS"@
    } else if ggml_type == 29 {
        "IQ1_M"@
    } else if ggml_type == 34 {
        "TQ1_0"@
    } else if ggml_type == 35 {
        "TQ2_0"@
    } else if ggml_type == GGML_TYPE_MXFP4 {
        "MXFP4"@
    } else if ggml_type == GGML_TYPE_NVFP4 {
        "NVFP4_GGUF"@
    } else if ggml_type == RQ_TYPE_NVFP4 {
        "NVFP4"@
    } else if ggml_type == RQ_TYPE_MXFP4_OCP {
        "MXFP4_OCP"@
    } else if ggml_type == RQ_TYPE_MXFP8_E4M3 {
        "MXFP8"@
    } else if ggml_type == RQ_TYPE_FP8_E4M3 {
        "FP8_E4M3"@
    } else if ggml_type == RQ_TYPE_FP8_E5M2 {
        "FP8_E5M2"@
    } else {
        "type"@ + text::decimal(ggml_type as nat)
    }
}

/// The bytes that `n` elements of a type take: whole blocks only.
pub open spec fn packed_size(ggml_type: u32, n: nat) -> Result<u64, GgufError> {
    match layout_of(ggml_type) {
        None => Err(GgufError::UnsupportedTensorType(ggml_type)),
        Some((block, bytes)) => if n % block as nat != 0 {
            Err(GgufError::NotWholeBlocks { ggml_type, n: n as u64, block: block as u64 })
        } else if n / block as nat * bytes as nat > u64::MAX {
            Err(GgufError::SizeOverflow)
        } else {
            Ok((n / block as nat * bytes as nat) as u64)
        },
    }
}

/// The number of elements of a tensor: the product of its dimensions, as long as it fits in 64
/// bits after each dimension.
pub open spec fn elem_count(dims: Seq<u64>) -> Option<u64>
    decreases dims.len(),
{
    if dims.len() == 0 {
        Some(1)
    } else {
        match elem_count(dims.drop_last()) {
            Some(p) => if p * dims.last() <= u64::MAX {
                Some((p * dims.last()) as u64)
            } else {
                None
            },
            None => None,
        }
    }
}

/// Elements and bytes of one block of `ggml_type`; `None` for a type that is not known.
///
/// Types whose scales lie in another tensor count those scale bytes too: that is what a byte
/// budget has to spend on them.
pub fn block_layout(ggml_type: u32) -> (r: Option<(usize, usize)>)
    ensures
        r == layout_of(ggml_type),
{
    if ggml_type == 0 {
        Some((1, 4))
    } else if ggml_type == 1 {
        Some((1, 2))
    } else if ggml_type == 30 {
        Some((1, 2))
    } else if ggml_type == 2 {
        Some((32, 18))
    } else if ggml_type == 3 {
        Some((32, 20))
    } else if ggml_type == 6 {
        Some((32, 22))
    } else if ggml_type == 7 {
        Some((32, 24))
    } else if ggml_type == 8 {
        Some((32, 34))
    } else if ggml_type == 9 {
        Some((32, 36))
    } else if ggml_type == 41 {
        Some((128, 18))
    } else if ggml_type == 42 {
        Some((64, 18))
    } else if ggml_type == 10 {
        Some((256, 84))
    } else if ggml_type == 11 {
        Some((256, 110))
    } else if ggml_type == 12 {
        Some((256, 144))
    } else if ggml_type == 13 {
        Some((256, 176))
    } else if ggml_type == 14 {
        Some((256, 210))
    } else if ggml_type == 15 {
        Some((256, 292))
    } else if ggml_type == 16 {
        Some((256, 66))
    } else if ggml_type == 17 {
        Some((256, 74))
    } else if ggml_type == 18 {
        Some((256, 98))
    } else if ggml_type == 19 {
        Some((256, 50))
    } else if ggml_type == 20 {
        Some((32, 18))
    } else if ggml_type == 21 {
        Some((256, 110))
    } else if ggml_type == 22 {
        Some((256, 82))
    } else if ggml_type == 23 {
        Some((256, 136))
    } else if ggml_type == 29 {
        Some((256, 56))
    } else if ggml_type == 34 {
        Some((256, 54))
    } else if ggml_type == 35 {
        Some((256, 66))
    } else if ggml_type == GGML_TYPE_MXFP4 {
        Some((32, 17))
    } else if ggml_type == GGML_TYPE_NVFP4 {
        Some((64, 36))
    } else if ggml_type == RQ_TYPE_NVFP4 {
        Some((16, 9))
    } else if ggml_type == RQ_TYPE_MXFP4_OCP {
        Some((32, 17))
    } else if ggml_type == RQ_TYPE_MXFP8_E4M3 {
        Some((32, 33))
    } else if ggml_type == RQ_TYPE_FP8_E4M3 {
        Some((1, 1))
    } else if ggml_type == RQ_TYPE_FP8_E5M2 {
        Some((1, 1))
    } else {
        None
    }
}

/// Blocks are never empty, neither in elements nor in bytes.
pub proof fn lemma_blocks_not_empty(ggml_type: u32)
    ensures
        layout_of(ggml_type) matches Some((block, bytes)) ==> 0 < block <= 256 && 0 < bytes <= 292,
{
}

/// The bytes that `n` elements of `ggml_type` take. Fails for a type that is not known, for an
/// element count that is not a whole number of blocks, and for a size over 64 bits.
pub fn packed_nbytes(ggml_type: u32, n: u64, name: &str) -> (r: Result<u64, TensorError>)
    ensures
        match r {
            Ok(v) => packed_size(ggml_type, n as nat) == Ok::<u64, GgufError>(v),
            Err(e) => packed_size(ggml_type, n as nat) == Err::<u64, GgufError>(e.kind)
                && e.tensor@ == name@,
        },
{
    match packed_nbytes_of(ggml_type, n) {
        Ok(v) => Ok(v),
        Err(kind) => Err(TensorError { tensor: name.to_owned(), kind }),
    }
}

/// [`packed_nbytes`] without a tensor's name.
pub fn packed_nbytes_of(ggml_type: u32, n: u64) -> (r: Result<u64, GgufError>)
    ensures
        r == packed_size(ggml_type, n as nat),
{
    proof {
        lemma_blocks_not_empty(ggml_type);
    }
    let (block, bytes): (usize, usize) = match block_layout(ggml_type) {
        Some(x) => x,
        None => return Err(GgufError::UnsupportedTensorType(ggml_type)),
    };
    if n % block as u64 != 0 {
        return Err(GgufError::NotWholeBlocks { ggml_type, n, block: block as u64 });
    }
    match (n / block as u64).checked_mul(bytes as u64) {
        Some(v) => Ok(v),
        None => Err(GgufError::SizeOverflow),
    }
}

/// The product of `dims`; `None` where it does not fit in 64 bits.
pub fn count_elems(dims: &[u64]) -> (r: Option<u64>)
    ensures
        r == elem_count(dims@),
{
    let n: usize = dims.len();
    let mut p: u64 = 1;
    let mut i: usize = 0;
    assert(dims@.subrange(0, 0) =~= Seq::<u64>::empty());
    while i < n
        invariant
            i <= n == dims@.len(),
            elem_count(dims@.subrange(0, i as int)) == Some(p),
        decreases n - i,
    {
        let ghost longer = dims@.subrange(0, i + 1);
        assert(longer.drop_last() =~= dims@.subrange(0, i as int));
        assert(longer.last() == dims@[i as int]);
        match p.checked_mul(dims[i]) {
            Some(q) => {
                p = q;
            },
            None => {
                proof {
                    lemma_overflow_stays(dims@, i + 1);
                }
                return None;
            },
        }
        i = i + 1;
    }
    assert(dims@.subrange(0, n as int) =~= dims@);
    Some(p)
}

/// A product that does not fit after some dimensions does not fit after all of them.
proof fn lemma_overflow_stays(dims: Seq<u64>, k: int)
    requires
        0 <= k <= dims.len(),
        elem_count(dims.subrange(0, k)) is None,
    ensures
        elem_count(dims) is None,
    decreases dims.len() - k,
{
    if k == dims.len() {
        assert(dims.subrange(0, k) =~= dims);
    } else {
        assert(dims.subrange(0, k + 1).drop_last() =~= dims.subrange(0, k));
        lemma_overflow_stays(dims, k + 1);
    }
}

/// Bits per weight of a type, as the pair of the bits of one block and its elements.
pub fn bpw(ggml_type: u32) -> (r: Option<(u64, u64)>)
    ensures
        match layout_of(ggml_type) {
            Some((block, bytes)) => r == Some(((bytes * 8) as u64, block as u64)),
            None => r is None,
        },
{
    proof {
        lemma_blocks_not_empty(ggml_type);
    }
    match block_layout(ggml_type) {
        Some((block, bytes)) => Some((bytes as u64 * 8, block as u64)),
        None => None,
    }
}

/// The name of a type; `type` and the number for a type that is not known.
pub fn ggml_type_name(ggml_type: u32) -> (r: String)
    ensures
        r@ == name_of(ggml_type),
{
    match known_name(ggml_type) {
        Some(s) => s.to_owned(),
        None => {
            let mut s: String = "type".to_owned();
            text::push_decimal(&mut s, ggml_type as u64);
            s
        },
    }
}

/// The length of a name, its second and third and its last character.
spec fn name_marks(s: Seq<char>) -> (nat, char, char, char) {
    (s.len(), s[1], s[2], s.last())
}

/// [`name_marks`] of a known type.
spec fn known_marks(ggml_type: u32) -> (nat, char, char, char) {
    if ggml_type == 0 {
        (3, '3', '2', '2')
    } else if ggml_type == 1 {
        (3, '1', '6', '6')
    } else if ggml_type == 30 {
        (4, 'F', '1', '6')
    } else if ggml_type == 2 {
        (4, '4', '_', '0')
    } else if ggml_type == 3 {
        (4, '4', '_', '1')
    } else if ggml_type == 6 {
        (4, '5', '_', '0')
    } else if ggml_type == 7 {
        (4, '5', '_', '1')
    } else if ggml_type == 8 {
        (4, '8', '_', '0')
    } else if ggml_type == 9 {
        (4, '8', '_', '1')
    } else if ggml_type == 41 {
        (4, '1', '_', '0')
    } else if ggml_type == 42 {
        (4, '2', '_', '0')
    } else if ggml_type == 10 {
        (4, '2', '_', 'K')
    } else if ggml_type == 11 {
        (4, '3', '_', 'K')
    } else if ggml_type == 12 {
        (4, '4', '_', 'K')
    } else if ggml_type == 13 {
        (4, '5', '_', 'K')
    } else if ggml_type == 14 {
        (4, '6', '_', 'K')
    } else if ggml_type == 15 {
        (4, '8', '_', 'K')
    } else if ggml_type == 16 {
        (7, 'Q', '2', 'S')
    } else if ggml_type == 17 {
        (6, 'Q', '2', 'S')
    } else if ggml_type == 18 {
        (7, 'Q', '3', 'S')
    } else if ggml_type == 19 {
        (5, 'Q', '1', 'S')
    } else if ggml_type == 20 {
        (6, 'Q', '4', 'L')
    } else if ggml_type == 21 {
        (5, 'Q', '3', 'S')
    } else if ggml_type == 22 {
        (5, 'Q', '2', 'S')
    } else if ggml_type == 23 {
        (6, 'Q', '4', 'S')
    } else if ggml_type == 29 {
        (5, 'Q', '1', 'M')
    } else if ggml_type == 34 {
        (5, 'Q', '1', '0')
    } else if ggml_type == 35 {
        (5, 'Q', '2', '0')
    } else if ggml_type == GGML_TYPE_MXFP4 {
        (5, 'X', 'F', '4')
    } else if ggml_type == GGML_TYPE_NVFP4 {
        (10, 'V', 'F', 'F')
    } else if ggml_type == RQ_TYPE_NVFP4 {
        (5, 'V', 'F', '4')
    } else if ggml_type == RQ_TYPE_MXFP4_OCP {
        (9, 'X', 'F', 'P')
    } else if ggml_type == RQ_TYPE_MXFP8_E4M3 {
        (5, 'X', 'F', '8')
    } else if ggml_type == RQ_TYPE_FP8_E4M3 {
        (8, 'P', '8', '3')
    } else if ggml_type == RQ_TYPE_FP8_E5M2 {
        (8, 'P', '8', '2')
    } else {
        (0, ' ', ' ', ' ')
    }
}

/// What the marks of the name of a known type are, and that it does not begin with a `t`.
proof fn lemma_known_marks(ggml_type: u32)
    requires
        layout_of(ggml_type) is Some,
    ensures
        name_marks(name_of(ggml_type)) == known_marks(ggml_type),
        name_of(ggml_type)[0] != 't',
{
    reveal_strlit("F32");
    reveal_strlit("F16");
    reveal_strlit("BF16");
    reveal_strlit("Q4_0");
    reveal_strlit("Q4_1");
    reveal_strlit("Q5_0");
    reveal_strlit("Q5_1");
    reveal_strlit("Q8_0");
    reveal_strlit("Q8_1");
    reveal_strlit("Q1_0");
    reveal_strlit("Q2_0");
    reveal_strlit("Q2_K");
    reveal_strlit("Q3_K");
    reveal_strlit("Q4_K");
    reveal_strlit("Q5_K");
    reveal_strlit("Q6_K");
    reveal_strlit("Q8_K");
    reveal_strlit("IQ2_XXS");
    reveal_strlit("IQ2_XS");
    reveal_strlit("IQ3_XXS");
    reveal_strlit("IQ1_S");
    reveal_strlit("IQ4_NL");
    reveal_strlit("IQ3_S");
    reveal_strlit("IQ2_S");
    reveal_strlit("IQ4_XS");
    reveal_strlit("IQ1_M");
    reveal_strlit("TQ1_0");
    reveal_strlit("TQ2_0");
    reveal_strlit("MXFP4");
    reveal_strlit("NVFP4_GGUF");
    reveal_strlit("NVFP4");
    reveal_strlit("MXFP4_OCP");
    reveal_strlit("MXFP8");
    reveal_strlit("FP8_E4M3");
    reveal_strlit("FP8_E5M2");
}

/// No two types have the same name, and only a type that is not known is named by its number. The
/// two types called NVFP4 are told apart by theirs.
pub proof fn law_no_two_types_share_a_name(a: u32, b: u32)
    ensures
        name_of(a) == name_of(b) <==> a == b,
        name_of(a) == "type"@ + text::decimal(a as nat) <==> layout_of(a) is None,
        name_of(GGML_TYPE_NVFP4) == "NVFP4_GGUF"@,
        name_of(RQ_TYPE_NVFP4) == "NVFP4"@,
{
    reveal_strlit("type");
    let x = "type"@ + text::decimal(a as nat);
    let y = "type"@ + text::decimal(b as nat);
    assert(x[0] == 't' && y[0] == 't');
    if layout_of(a) is Some {
        lemma_known_marks(a);
    }
    if layout_of(b) is Some {
        lemma_known_marks(b);
    }
    if layout_of(a) is None && layout_of(b) is None && x == y {
        assert(x.subrange(4, x.len() as int) =~= text::decimal(a as nat));
        assert(y.subrange(4, y.len() as int) =~= text::decimal(b as nat));
        text::law_decimal_parses(a as nat, u32::MAX as nat);
        text::law_decimal_parses(b as nat, u32::MAX as nat);
    }
}

/// The name of a type that is known.
pub fn known_name(ggml_type: u32) -> (r: Option<&'static str>)
    ensures
        r is Some <==> layout_of(ggml_type) is Some,
        r is Some ==> r->0@ == name_of(ggml_type),
{
    if ggml_type == 0 {
        Some("F32")
    } else if ggml_type == 1 {
        Some("F16")
    } else if ggml_type == 30 {
        Some("BF16")
    } else if ggml_type == 2 {
        Some("Q4_0")
    } else if ggml_type == 3 {
        Some("Q4_1")
    } else if ggml_type == 6 {
        Some("Q5_0")
    } else if ggml_type == 7 {
        Some("Q5_1")
    } else if ggml_type == 8 {
        Some("Q8_0")
    } else if ggml_type == 9 {
        Some("Q8_1")
    } else if ggml_type == 41 {
        Some("Q1_0")
    } else if ggml_type == 42 {
        Some("Q2_0")
    } else if ggml_type == 10 {
        Some("Q2_K")
    } else if ggml_type == 11 {
        Some("Q3_K")
    } else if ggml_type == 12 {
        Some("Q4_K")
    } else if ggml_type == 13 {
        Some("Q5_K")
    } else if ggml_type == 14 {
        Some("Q6_K")
    } else if ggml_type == 15 {
        Some("Q8_K")
    } else if ggml_type == 16 {
        Some("IQ2_XXS")
    } else if ggml_type == 17 {
        Some("IQ2_XS")
    } else if ggml_type == 18 {
        Some("IQ3_XXS")
    } else if ggml_type == 19 {
        Some("IQ1_S")
    } else if ggml_type == 20 {
        Some("IQ4_NL")
    } else if ggml_type == 21 {
        Some("IQ3_S")
    } else if ggml_type == 22 {
        Some("IQ2_S")
    } else if ggml_type == 23 {
        Some("IQ4_XS")
    } else if ggml_type == 29 {
        Some("IQ1_M")
    } else if ggml_type == 34 {
        Some("TQ1_0")
    } else if ggml_type == 35 {
        Some("TQ2_0")
    } else if ggml_type == GGML_TYPE_MXFP4 {
        Some("MXFP4")
    } else if ggml_type == GGML_TYPE_NVFP4 {
        Some("NVFP4_GGUF")
    } else if ggml_type == RQ_TYPE_NVFP4 {
        Some("NVFP4")
    } else if ggml_type == RQ_TYPE_MXFP4_OCP {
        Some("MXFP4_OCP")
    } else if ggml_type == RQ_TYPE_MXFP8_E4M3 {
        Some("MXFP8")
    } else if ggml_type == RQ_TYPE_FP8_E4M3 {
        Some("FP8_E4M3")
    } else if ggml_type == RQ_TYPE_FP8_E5M2 {
        Some("FP8_E5M2")
    } else {
        None
    }
}

/// The types whose elements are plain floats of 32 or 16 bits.
pub open spec fn is_float(ggml_type: u32) -> bool {
    ggml_type == 0 || ggml_type == 1 || ggml_type == 30
}

/// Whether the elements of the type are plain floats.
pub fn is_float_type(ggml_type: u32) -> (r: bool)
    ensures
        r == is_float(ggml_type),
{
    ggml_type == 0 || ggml_type == 1 || ggml_type == 30
}

/// The least multiple of `a` that is not below `x`; an alignment of zero counts as one.
pub open spec fn aligned(x: nat, a: nat) -> nat {
    let unit: nat = if a == 0 {
        1
    } else {
        a
    };
    (x + unit - 1) as nat / unit * unit
}

/// Rounding up reaches a multiple of the unit, at or behind `x` and less than one unit behind it.
pub proof fn lemma_aligned(x: nat, a: nat)
    ensures
        a > 0 ==> aligned(x, a) % a == 0,
        x <= aligned(x, a),
        a > 0 ==> aligned(x, a) < x + a,
        a == 0 ==> aligned(x, a) == x,
        aligned(x, a) == if a == 0 || x % a == 0 {
            x
        } else {
            (x + a - x % a) as nat
        },
{
    if a > 0 {
        let q = x / a;
        let r = x % a;
        assert(x == q * a + r && 0 <= r < a) by (nonlinear_arith)
            requires
                q == x / a,
                r == x % a,
                a > 0,
        ;
        if r == 0 {
            assert((x + a - 1) as nat / a == q) by (nonlinear_arith)
                requires
                    x == q * a,
                    a > 0,
            ;
            assert((q * a) % a == 0) by (nonlinear_arith)
                requires
                    a > 0,
            ;
        } else {
            assert((x + a - 1) as nat / a == q + 1) by (nonlinear_arith)
                requires
                    x == q * a + r,
                    0 < r < a,
            ;
            assert((q + 1) * a == q * a + a) by (nonlinear_arith);
            assert(((q + 1) * a) % a == 0) by (nonlinear_arith)
                requires
                    a > 0,
            ;
        }
    } else {
        assert((x + 1 - 1) as nat / 1 * 1 == x) by (nonlinear_arith);
    }
}

/// Rounds `x` up to a multiple of `a`.
pub fn align_up(x: u64, a: u64) -> (r: u64)
    requires
        aligned(x as nat, a as nat) <= u64::MAX,
    ensures
        r == aligned(x as nat, a as nat),
{
    proof {
        lemma_aligned(x as nat, a as nat);
    }
    if a == 0 {
        return x;
    }
    let r: u64 = x % a;
    if r == 0 {
        x
    } else {
        x + (a - r)
    }
}

} // verus!
