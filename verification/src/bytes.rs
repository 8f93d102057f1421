//! Little-endian integers inside byte sequences.
use vstd::prelude::*;

pub mod laws;

verus! {

/// The `n` low-order bytes of `v`, least significant byte first.
pub open spec fn le_bytes(v: nat, n: nat) -> Seq<u8>
    decreases n,
{
    if n == 0 {
        Seq::empty()
    } else {
        seq![(v % 256) as u8] + le_bytes(v / 256, (n - 1) as nat)
    }
}

/// The number that `s` spells, least significant byte first.
pub open spec fn le_value(s: Seq<u8>) -> nat
    decreases s.len(),
{
    if s.len() == 0 {
        0
    } else {
        s[0] as nat + 256 * le_value(s.drop_first())
    }
}

/// `256` to the power `n`.
pub open spec fn pow256(n: nat) -> nat
    decreases n,
{
    if n == 0 {
        1
    } else {
        256 * pow256((n - 1) as nat)
    }
}

/// True when the bytes `e` stand in `b` at position `pos`.
pub open spec fn stands_at(b: Seq<u8>, pos: int, e: Seq<u8>) -> bool {
    &&& 0 <= pos
    &&& pos + e.len() <= b.len()
    &&& b.subrange(pos, pos + e.len()) == e
}

/// The signed reading of the unsigned number `v` of `2^bits` values, `half` being `2^(bits-1)`.
pub open spec fn signed_of(v: int, half: int) -> int {
    if v < half {
        v
    } else {
        v - 2 * half
    }
}

/// The unsigned number with the two's complement bits of `v`, `half` being `2^(bits-1)`.
pub open spec fn unsigned_of(v: int, half: int) -> int {
    if v >= 0 {
        v
    } else {
        v + 2 * half
    }
}

/// `n` bytes come out of [`le_bytes`].
pub broadcast proof fn lemma_le_bytes_len(v: nat, n: nat)
    ensures
        #[trigger] le_bytes(v, n).len() == n,
    decreases n,
{
    if n > 0 {
        lemma_le_bytes_len(v / 256, (n - 1) as nat);
    }
}

/// A byte sequence spells a number below `256` to the power of its length.
pub proof fn lemma_le_value_bound(s: Seq<u8>)
    ensures
        le_value(s) < pow256(s.len()),
    decreases s.len(),
{
    if s.len() > 0 {
        lemma_le_value_bound(s.drop_first());
    }
}

/// Reading back what was written: `n` bytes hold every number below `256` to the power `n`.
pub proof fn lemma_le_roundtrip(v: nat, n: nat)
    requires
        v < pow256(n),
    ensures
        le_value(le_bytes(v, n)) == v,
    decreases n,
{
    if n > 0 {
        lemma_le_roundtrip(v / 256, (n - 1) as nat);
        let s = le_bytes(v, n);
        assert(s.drop_first() =~= le_bytes(v / 256, (n - 1) as nat));
        assert(s[0] == (v % 256) as u8);
    }
}

/// Writing back what was read: the bytes of the number that `s` spells are `s`.
pub proof fn lemma_le_reverse(s: Seq<u8>)
    ensures
        le_bytes(le_value(s), s.len()) == s,
    decreases s.len(),
{
    if s.len() > 0 {
        let rest = s.drop_first();
        lemma_le_reverse(rest);
        assert(le_value(s) % 256 == s[0] as nat);
        assert(le_value(s) / 256 == le_value(rest));
        assert(le_bytes(le_value(s), s.len()) =~= s);
    }
}

/// The powers of `256` that fixed-width integers need.
pub proof fn lemma_pow256()
    ensures
        pow256(0) == 1,
        pow256(1) == 0x100,
        pow256(2) == 0x1_0000,
        pow256(4) == 0x1_0000_0000,
        pow256(8) == 0x1_0000_0000_0000_0000,
{
    reveal_with_fuel(pow256, 9);
}

/// Both parts of a concatenation stand one behind the other.
pub proof fn lemma_stands_split(b: Seq<u8>, pos: int, e: Seq<u8>, f: Seq<u8>)
    requires
        stands_at(b, pos, e + f),
    ensures
        stands_at(b, pos, e),
        stands_at(b, pos + e.len(), f),
{
    let w = b.subrange(pos, pos + (e + f).len());
    assert(w == e + f);
    assert(b.subrange(pos, pos + e.len()) =~= w.subrange(0, e.len() as int));
    assert(w.subrange(0, e.len() as int) =~= e);
    assert(b.subrange(pos + e.len(), pos + e.len() + f.len()) =~= w.subrange(
        e.len() as int,
        w.len() as int,
    ));
    assert(w.subrange(e.len() as int, w.len() as int) =~= f);
}

/// Appends the `n` low-order bytes of `v`, least significant first.
pub fn push_le(buf: &mut Vec<u8>, v: u64, n: usize)
    ensures
        final(buf)@ == old(buf)@ + le_bytes(v as nat, n as nat),
{
    let mut x: u64 = v;
    let mut i: usize = 0;
    assert(buf@ + le_bytes(v as nat, n as nat) =~= old(buf)@ + le_bytes(v as nat, n as nat));
    while i < n
        invariant
            i <= n,
            buf@ + le_bytes(x as nat, (n - i) as nat) == old(buf)@ + le_bytes(v as nat, n as nat),
        decreases n - i,
    {
        let ghost before = buf@;
        let ghost rest = le_bytes((x / 256) as nat, (n - i - 1) as nat);
        buf.push((x % 256) as u8);
        assert(before + le_bytes(x as nat, (n - i) as nat) =~= buf@ + rest);
        x = x / 256;
        i = i + 1;
    }
    assert(buf@ + le_bytes(x as nat, 0) =~= buf@);
}

/// The number spelled by the `n` bytes of `s` that begin at `at`.
pub fn le_at(s: &[u8], at: usize, n: usize) -> (r: u64)
    requires
        n <= 8,
        at + n <= s@.len(),
    ensures
        r == le_value(s@.subrange(at as int, at + n)),
        r < pow256(n as nat),
{
    proof {
        reveal_with_fuel(pow256, 9);
    }
    let total: usize = s.len();
    let mut acc: u64 = 0;
    let mut i: usize = n;
    assert(s@.subrange(at + n, at + n) =~= Seq::<u8>::empty());
    while i > 0
        invariant
            i <= n <= 8,
            at + n <= total == s@.len(),
            acc == le_value(s@.subrange(at + i, at + n)),
            acc < pow256((n - i) as nat),
        decreases i,
    {
        let ghost tail = s@.subrange(at + i - 1, at + n);
        assert(tail.drop_first() =~= s@.subrange(at + i, at + n));
        proof {
            lemma_le_value_bound(tail);
            reveal_with_fuel(pow256, 9);
        }
        i = i - 1;
        acc = acc * 256 + s[at + i] as u64;
    }
    acc
}

/// The two's complement reading of one byte.
pub fn to_i8(v: u8) -> (r: i8)
    ensures
        r == signed_of(v as int, 0x80),
{
    if v < 0x80 {
        v as i8
    } else {
        -((0xff - v) as i8) - 1
    }
}

/// The two's complement reading of sixteen bits.
pub fn to_i16(v: u16) -> (r: i16)
    ensures
        r == signed_of(v as int, 0x8000),
{
    if v < 0x8000 {
        v as i16
    } else {
        -((0xffff - v) as i16) - 1
    }
}

/// The two's complement reading of thirty-two bits.
pub fn to_i32(v: u32) -> (r: i32)
    ensures
        r == signed_of(v as int, 0x8000_0000),
{
    if v < 0x8000_0000 {
        v as i32
    } else {
        -((0xffff_ffff - v) as i32) - 1
    }
}

/// The two's complement reading of sixty-four bits.
pub fn to_i64(v: u64) -> (r: i64)
    ensures
        r == signed_of(v as int, 0x8000_0000_0000_0000),
{
    if v < 0x8000_0000_0000_0000 {
        v as i64
    } else {
        -((0xffff_ffff_ffff_ffff - v) as i64) - 1
    }
}

/// The two's complement bits of an `i8`.
pub fn of_i8(v: i8) -> (r: u8)
    ensures
        r == unsigned_of(v as int, 0x80),
{
    if v >= 0 {
        v as u8
    } else {
        0xff - (-(v + 1)) as u8
    }
}

/// The two's complement bits of an `i16`.
pub fn of_i16(v: i16) -> (r: u16)
    ensures
        r == unsigned_of(v as int, 0x8000),
{
    if v >= 0 {
        v as u16
    } else {
        0xffff - (-(v + 1)) as u16
    }
}

/// The two's complement bits of an `i32`.
pub fn of_i32(v: i32) -> (r: u32)
    ensures
        r == unsigned_of(v as int, 0x8000_0000),
{
    if v >= 0 {
        v as u32
    } else {
        0xffff_ffff - (-(v + 1)) as u32
    }
}

/// The two's complement bits of an `i64`.
pub fn of_i64(v: i64) -> (r: u64)
    ensures
        r == unsigned_of(v as int, 0x8000_0000_0000_0000),
{
    if v >= 0 {
        v as u64
    } else {
        0xffff_ffff_ffff_ffff - (-(v + 1)) as u64
    }
}

} // verus!
