//! Rows of 32-bit numbers inside byte sequences.
use vstd::prelude::*;
use crate::bytes;
use crate::bytes::{le_at, push_le};

verus! {

/// The bytes of 32-bit numbers, each with its least significant byte first.
pub open spec fn words_bytes(w: Seq<u32>) -> Seq<u8>
    decreases w.len(),
{
    if w.len() == 0 {
        Seq::empty()
    } else {
        words_bytes(w.drop_last()) + bytes::le_bytes(w.last() as nat, 4)
    }
}

/// The `n` 32-bit numbers that stand in `b` from `pos` on.
pub open spec fn words_at(b: Seq<u8>, pos: int, n: nat) -> Seq<u32> {
    Seq::new(n, |i: int| bytes::le_value(b.subrange(pos + 4 * i, pos + 4 * i + 4)) as u32)
}

/// Four bytes for each number, and each number's bytes in its place.
pub proof fn lemma_words_bytes(w: Seq<u32>)
    ensures
        words_bytes(w).len() == 4 * w.len(),
        forall|i: int|
            0 <= i < w.len() ==> words_bytes(w).subrange(4 * i, 4 * i + 4) == bytes::le_bytes(
                #[trigger] w[i] as nat,
                4,
            ),
    decreases w.len(),
{
    if w.len() > 0 {
        let before = w.drop_last();
        lemma_words_bytes(before);
        bytes::lemma_le_bytes_len(w.last() as nat, 4);
        assert forall|i: int| 0 <= i < w.len() implies words_bytes(w).subrange(4 * i, 4 * i + 4)
            == bytes::le_bytes(#[trigger] w[i] as nat, 4) by {
            if i < w.len() - 1 {
                assert(before[i] == w[i]);
                assert(words_bytes(w).subrange(4 * i, 4 * i + 4) =~= words_bytes(before).subrange(
                    4 * i,
                    4 * i + 4,
                ));
            } else {
                assert(words_bytes(w).subrange(4 * i, 4 * i + 4) =~= bytes::le_bytes(
                    w.last() as nat,
                    4,
                ));
            }
        }
    }
}

/// Numbers are read back from their bytes, wherever these stand.
pub proof fn lemma_words_roundtrip(b: Seq<u8>, pos: int, w: Seq<u32>)
    requires
        bytes::stands_at(b, pos, words_bytes(w)),
    ensures
        words_at(b, pos, w.len()) == w,
{
    lemma_words_bytes(w);
    bytes::lemma_pow256();
    let all = words_bytes(w);
    assert forall|i: int| 0 <= i < w.len() implies words_at(b, pos, w.len())[i] == w[i] by {
        assert(all.subrange(4 * i, 4 * i + 4) == bytes::le_bytes(w[i] as nat, 4));
        assert(b.subrange(pos, pos + all.len()) == all);
        assert(b.subrange(pos + 4 * i, pos + 4 * i + 4) =~= all.subrange(4 * i, 4 * i + 4));
        bytes::lemma_le_roundtrip(w[i] as nat, 4);
    }
    assert(words_at(b, pos, w.len()) =~= w);
}

/// Appends the bytes of numbers.
pub fn push_words(buf: &mut Vec<u8>, w: &[u32])
    ensures
        final(buf)@ == old(buf)@ + words_bytes(w@),
{
    let n: usize = w.len();
    let mut i: usize = 0;
    assert(buf@ =~= old(buf)@ + words_bytes(w@.subrange(0, 0)));
    while i < n
        invariant
            i <= n == w@.len(),
            buf@ == old(buf)@ + words_bytes(w@.subrange(0, i as int)),
        decreases n - i,
    {
        let ghost longer = w@.subrange(0, i + 1);
        assert(longer.drop_last() =~= w@.subrange(0, i as int));
        push_le(buf, w[i] as u64, 4);
        assert(buf@ =~= old(buf)@ + words_bytes(longer));
        i = i + 1;
    }
    assert(w@.subrange(0, n as int) =~= w@);
}

/// Reads `n` numbers.
pub fn read_words(b: &[u8], pos: usize, n: usize) -> (r: Vec<u32>)
    requires
        pos + 4 * n <= b@.len(),
    ensures
        r@ == words_at(b@, pos as int, n as nat),
{
    proof {
        bytes::lemma_pow256();
    }
    let total: usize = b.len();
    let mut out: Vec<u32> = Vec::new();
    let mut i: usize = 0;
    while i < n
        invariant
            i <= n,
            total == b@.len(),
            pos + 4 * n <= total,
            bytes::pow256(4) == 0x1_0000_0000,
            out@.len() == i,
            forall|j: int|
                0 <= j < i ==> #[trigger] out@[j] == words_at(b@, pos as int, n as nat)[j],
        decreases n - i,
    {
        let x: u64 = le_at(b, pos + 4 * i, 4);
        out.push(x as u32);
        i = i + 1;
    }
    assert(out@ =~= words_at(b@, pos as int, n as nat));
    out
}

} // verus!
