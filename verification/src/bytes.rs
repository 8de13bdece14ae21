//! Little-endian numbers in bytes.

use vstd::prelude::*;

verus! {

/// The number whose two bytes stand at `i`, low byte first.
pub open spec fn le16(b: Seq<u8>, i: int) -> u16 {
    (b[i] + 0x100 * b[i + 1]) as u16
}

/// The number whose four bytes stand at `i`, low byte first.
pub open spec fn le32(b: Seq<u8>, i: int) -> u32 {
    (b[i] + 0x100 * b[i + 1] + 0x1_0000 * b[i + 2] + 0x100_0000 * b[i + 3]) as u32
}

/// The number whose eight bytes stand at `i`, low byte first.
pub open spec fn le64(b: Seq<u8>, i: int) -> u64 {
    (le32(b, i) + 0x1_0000_0000 * le32(b, i + 4)) as u64
}

/// The bytes of a number, low byte first.
pub open spec fn bytes16(v: u16) -> Seq<u8> {
    seq![(v % 256) as u8, (v / 256) as u8]
}

pub open spec fn bytes32(v: u32) -> Seq<u8> {
    seq![
        (v % 256) as u8,
        (v / 0x100 % 256) as u8,
        (v / 0x1_0000 % 256) as u8,
        (v / 0x100_0000) as u8,
    ]
}

pub open spec fn bytes64(v: u64) -> Seq<u8> {
    bytes32((v % 0x1_0000_0000) as u32) + bytes32((v / 0x1_0000_0000) as u32)
}

pub fn u16_at(b: &[u8], i: usize) -> (r: u16)
    requires
        i + 2 <= b@.len(),
    ensures
        r == le16(b@, i as int),
{
    assert(b.len() <= usize::MAX);
    b[i] as u16 + 0x100 * b[i + 1] as u16
}

pub fn u32_at(b: &[u8], i: usize) -> (r: u32)
    requires
        i + 4 <= b@.len(),
    ensures
        r == le32(b@, i as int),
{
    assert(b.len() <= usize::MAX);
    b[i] as u32 + 0x100 * b[i + 1] as u32 + 0x1_0000 * b[i + 2] as u32 + 0x100_0000 * b[i + 3] as u32
}

pub fn u64_at(b: &[u8], i: usize) -> (r: u64)
    requires
        i + 8 <= b@.len(),
    ensures
        r == le64(b@, i as int),
{
    assert(b.len() <= usize::MAX);
    u32_at(b, i) as u64 + 0x1_0000_0000 * u32_at(b, i + 4) as u64
}

pub fn put_u16(out: &mut Vec<u8>, v: u16)
    ensures
        final(out)@ == old(out)@ + bytes16(v),
{
    out.push((v % 256) as u8);
    out.push((v / 256) as u8);
    assert(out@ =~= old(out)@ + bytes16(v));
}

pub fn put_u32(out: &mut Vec<u8>, v: u32)
    ensures
        final(out)@ == old(out)@ + bytes32(v),
{
    out.push((v % 256) as u8);
    out.push((v / 0x100 % 256) as u8);
    out.push((v / 0x1_0000 % 256) as u8);
    out.push((v / 0x100_0000) as u8);
    assert(out@ =~= old(out)@ + bytes32(v));
}

pub fn put_u64(out: &mut Vec<u8>, v: u64)
    ensures
        final(out)@ == old(out)@ + bytes64(v),
{
    put_u32(out, (v % 0x1_0000_0000) as u32);
    put_u32(out, (v / 0x1_0000_0000) as u32);
    assert(out@ =~= old(out)@ + bytes64(v));
}

pub fn put_all(out: &mut Vec<u8>, b: &[u8])
    ensures
        final(out)@ == old(out)@ + b@,
{
    let n: usize = b.len();
    assert(out@ =~= old(out)@ + b@.take(0));
    for i in 0..n
        invariant
            n == b@.len(),
            out@ == old(out)@ + b@.take(i as int),
    {
        out.push(b[i]);
        assert(out@ =~= old(out)@ + b@.take(i + 1));
    }
    assert(b@.take(n as int) =~= b@);
}

/// The bytes of UTF-16 units, the low byte of each first.
pub open spec fn unit_bytes(u: Seq<u16>) -> Seq<u8>
    decreases u.len(),
{
    if u.len() == 0 {
        seq![]
    } else {
        unit_bytes(u.drop_last()) + bytes16(u.last())
    }
}

pub fn bytes_of_units(u: &[u16]) -> (r: Vec<u8>)
    ensures
        r@ == unit_bytes(u@),
{
    let mut out: Vec<u8> = Vec::new();
    let n: usize = u.len();
    for i in 0..n
        invariant
            n == u@.len(),
            out@ == unit_bytes(u@.take(i as int)),
    {
        put_u16(&mut out, u[i]);
        assert(u@.take(i + 1).drop_last() =~= u@.take(i as int));
    }
    assert(u@.take(n as int) =~= u@);
    out
}

/// A number read where it was written comes back.
pub proof fn law_u32_reads_back(before: Seq<u8>, v: u32, after: Seq<u8>)
    ensures
        le32(before + bytes32(v) + after, before.len() as int) == v,
{
    let s = before + bytes32(v) + after;
    let i = before.len() as int;
    assert(s[i] == bytes32(v)[0]);
    assert(s[i + 1] == bytes32(v)[1]);
    assert(s[i + 2] == bytes32(v)[2]);
    assert(s[i + 3] == bytes32(v)[3]);
}

/// The same of eight bytes.
pub proof fn law_u64_reads_back(before: Seq<u8>, v: u64, after: Seq<u8>)
    ensures
        le64(before + bytes64(v) + after, before.len() as int) == v,
{
    let low = (v % 0x1_0000_0000) as u32;
    let high = (v / 0x1_0000_0000) as u32;
    let s = before + bytes64(v) + after;
    law_u32_reads_back(before, low, bytes32(high) + after);
    law_u32_reads_back(before + bytes32(low), high, after);
    assert(s =~= before + bytes32(low) + (bytes32(high) + after));
    assert(s =~= (before + bytes32(low)) + bytes32(high) + after);
}

/// The same of two bytes.
pub proof fn law_u16_reads_back(before: Seq<u8>, v: u16, after: Seq<u8>)
    ensures
        le16(before + bytes16(v) + after, before.len() as int) == v,
{
    let s = before + bytes16(v) + after;
    let i = before.len() as int;
    assert(s[i] == bytes16(v)[0]);
    assert(s[i + 1] == bytes16(v)[1]);
}

/// Units as bytes are twice as many, and each reads back at its own place.
pub proof fn law_units_read_back(u: Seq<u16>, i: int)
    requires
        0 <= i < u.len(),
    ensures
        unit_bytes(u).len() == 2 * u.len(),
        le16(unit_bytes(u), 2 * i) == u[i],
    decreases u.len(),
{
    let b = unit_bytes(u);
    let front = unit_bytes(u.drop_last());
    if u.len() > 1 {
        law_units_read_back(u.drop_last(), if i < u.len() - 1 {
            i
        } else {
            0
        });
    } else {
        assert(u.drop_last() =~= seq![]);
    }
    assert(front.len() == 2 * (u.len() - 1));
    if i < u.len() - 1 {
        assert(b[2 * i] == front[2 * i] && b[2 * i + 1] == front[2 * i + 1]);
    } else {
        law_u16_reads_back(front, u.last(), seq![]);
        assert(front + bytes16(u.last()) + seq![] =~= b);
    }
}

/// The low byte comes first.
pub proof fn law_low_byte_first(v: u32, w: u16, q: u64)
    ensures
        bytes32(v).len() == 4 && bytes16(w).len() == 2 && bytes64(q).len() == 8,
        v < 0x100 ==> bytes32(v)[0] == v && bytes32(v)[1] == 0 && bytes32(v)[2] == 0 && bytes32(v)[3]
            == 0,
        w < 0x100 ==> bytes16(w)[0] == w && bytes16(w)[1] == 0,
        q < 0x1_0000_0000 ==> bytes64(q) == bytes32(q as u32) + seq![0u8, 0, 0, 0],
{
    if q < 0x1_0000_0000 {
        assert(bytes64(q) =~= bytes32(q as u32) + seq![0u8, 0, 0, 0]);
    }
}

} // verus!
