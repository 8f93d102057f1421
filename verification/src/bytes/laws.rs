//! What numbers in bytes promise.
use vstd::prelude::*;
use crate::bytes;
use crate::bytes::{
    le_at, of_i16, of_i32, of_i64, of_i8, push_le, to_i16, to_i32, to_i64, to_i8,
};

verus! {

/// The lowest byte of a number comes first: each byte weighs 256 times the one before it.
pub proof fn law_lowest_byte_first(s: &[u8], at: usize, n: usize, r: u64)
    requires
        n <= 8,
        at + n <= s@.len(),
        call_ensures(le_at, (s, at, n), r),
    ensures
        n == 1 ==> r == s@[at as int],
        n == 2 ==> r == s@[at as int] + 0x100 * s@[at + 1],
        n == 4 ==> r == s@[at as int] + 0x100 * s@[at + 1] + 0x1_0000 * s@[at + 2] + 0x100_0000
            * s@[at + 3],
        n == 8 ==> r == s@[at as int] + 0x100 * s@[at + 1] + 0x1_0000 * s@[at + 2] + 0x100_0000
            * s@[at + 3] + 0x1_0000_0000 * s@[at + 4] + 0x100_0000_0000 * s@[at + 5]
            + 0x1_0000_0000_0000 * s@[at + 6] + 0x100_0000_0000_0000 * s@[at + 7],
{
    lemma_digits(s@.subrange(at as int, at + n));
}

/// A number by its bytes.
proof fn lemma_digits(b: Seq<u8>)
    ensures
        b.len() == 1 ==> bytes::le_value(b) == b[0],
        b.len() == 2 ==> bytes::le_value(b) == b[0] + 0x100 * b[1],
        b.len() == 4 ==> bytes::le_value(b) == b[0] + 0x100 * b[1] + 0x1_0000 * b[2] + 0x100_0000
            * b[3],
        b.len() == 8 ==> bytes::le_value(b) == b[0] + 0x100 * b[1] + 0x1_0000 * b[2] + 0x100_0000
            * b[3] + 0x1_0000_0000 * b[4] + 0x100_0000_0000 * b[5] + 0x1_0000_0000_0000 * b[6]
            + 0x100_0000_0000_0000 * b[7],
{
    let d1 = b.drop_first();
    let d2 = d1.drop_first();
    let d3 = d2.drop_first();
    let d4 = d3.drop_first();
    let d5 = d4.drop_first();
    let d6 = d5.drop_first();
    let d7 = d6.drop_first();
    if b.len() == 8 {
        assert(bytes::le_value(d7.drop_first()) == 0);
        assert(bytes::le_value(d7) == b[7]);
        assert(bytes::le_value(d6) == b[6] + 0x100 * bytes::le_value(d7));
        assert(bytes::le_value(d5) == b[5] + 0x100 * bytes::le_value(d6));
        assert(bytes::le_value(d4) == b[4] + 0x100 * bytes::le_value(d5));
        assert(bytes::le_value(d3) == b[3] + 0x100 * bytes::le_value(d4));
        assert(bytes::le_value(d2) == b[2] + 0x100 * bytes::le_value(d3));
        assert(bytes::le_value(d1) == b[1] + 0x100 * bytes::le_value(d2));
    } else if b.len() == 4 {
        assert(bytes::le_value(d3.drop_first()) == 0);
        assert(bytes::le_value(d3) == b[3]);
        assert(bytes::le_value(d2) == b[2] + 0x100 * bytes::le_value(d3));
        assert(bytes::le_value(d1) == b[1] + 0x100 * bytes::le_value(d2));
    } else if b.len() == 2 {
        assert(bytes::le_value(d1.drop_first()) == 0);
        assert(bytes::le_value(d1) == b[1]);
    } else if b.len() == 1 {
        assert(bytes::le_value(d1) == 0);
    }
}

/// A number that is put behind others is read back, and those before it stay.
pub proof fn law_numbers_read_back(
    buf: &mut Vec<u8>,
    v: u64,
    n: usize,
    s: &[u8],
    at: usize,
    r: u64,
    i: int,
)
    requires
        n <= 8,
        v < bytes::pow256(n as nat),
        call_ensures(push_le, (buf, v, n), ()),
        s@ == final(buf)@,
        at == old(buf)@.len(),
        call_ensures(le_at, (s, at, n), r),
        0 <= i < at,
    ensures
        s@.len() == at + n,
        r == v,
        s@[i] == old(buf)@[i],
{
    bytes::lemma_le_bytes_len(v as nat, n as nat);
    bytes::lemma_le_roundtrip(v as nat, n as nat);
    assert(s@.subrange(at as int, at + n) =~= bytes::le_bytes(v as nat, n as nat));
}

/// Signed numbers are kept in two's complement, and turning them back and forth loses nothing.
pub proof fn law_signed_numbers(
    a: u8,
    b: u16,
    c: u32,
    d: u64,
    w: i8,
    x: i16,
    y: i32,
    z: i64,
    e: u8,
    f: u16,
    g: u32,
    h: u64,
)
    requires
        call_ensures(to_i8, (a,), w),
        call_ensures(to_i16, (b,), x),
        call_ensures(to_i32, (c,), y),
        call_ensures(to_i64, (d,), z),
        call_ensures(of_i8, (w,), e),
        call_ensures(of_i16, (x,), f),
        call_ensures(of_i32, (y,), g),
        call_ensures(of_i64, (z,), h),
    ensures
        w == a || w == a - 0x100,
        x == b || x == b - 0x1_0000,
        y == c || y == c - 0x1_0000_0000,
        z == d || z == d - 0x1_0000_0000_0000_0000,
        e == a && f == b && g == c && h == d,
{
}

} // verus!
