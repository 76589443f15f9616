//! Little endian integers on byte sequences, read and written through `byteorder`.
use vstd::prelude::*;
use byteorder::{ByteOrder, LittleEndian};
use vstd::string::StringSliceAdditionalSpecFns;

verus! {

/// The two little endian bytes of `n`.
pub open spec fn u16_bytes(n: u16) -> Seq<u8> {
    seq![(n & 0xff) as u8, ((n >> 8) & 0xff) as u8]
}

/// The four little endian bytes of `n`.
pub open spec fn u32_bytes(n: u32) -> Seq<u8> {
    seq![
        (n & 0xff) as u8,
        ((n >> 8) & 0xff) as u8,
        ((n >> 16) & 0xff) as u8,
        ((n >> 24) & 0xff) as u8,
    ]
}

/// The eight little endian bytes of `n`.
pub open spec fn u64_bytes(n: u64) -> Seq<u8> {
    seq![
        (n & 0xff) as u8,
        ((n >> 8) & 0xff) as u8,
        ((n >> 16) & 0xff) as u8,
        ((n >> 24) & 0xff) as u8,
        ((n >> 32) & 0xff) as u8,
        ((n >> 40) & 0xff) as u8,
        ((n >> 48) & 0xff) as u8,
        ((n >> 56) & 0xff) as u8,
    ]
}

/// The 16 bit number whose little endian bytes are `b[p]`, `b[p + 1]`.
pub open spec fn le_u16_at(b: Seq<u8>, p: int) -> u16 {
    ((b[p] as u16) | ((b[p + 1] as u16) << 8)) as u16
}

/// The 32 bit number whose little endian bytes start at `b[p]`.
pub open spec fn le_u32_at(b: Seq<u8>, p: int) -> u32 {
    ((b[p] as u32) | ((b[p + 1] as u32) << 8) | ((b[p + 2] as u32) << 16) | ((b[p + 3] as u32)
        << 24)) as u32
}

/// The 64 bit number whose little endian bytes start at `b[p]`.
pub open spec fn le_u64_at(b: Seq<u8>, p: int) -> u64 {
    ((b[p] as u64) | ((b[p + 1] as u64) << 8) | ((b[p + 2] as u64) << 16) | ((b[p + 3] as u64)
        << 24) | ((b[p + 4] as u64) << 32) | ((b[p + 5] as u64) << 40) | ((b[p + 6] as u64) << 48)
        | ((b[p + 7] as u64) << 56)) as u64
}

/// `LittleEndian::read_u16` on the bytes from `pos` on: the number whose little
/// endian encoding they start with.
#[verifier::external_body]
pub(crate) fn read_u16_at(buf: &[u8], pos: usize) -> (r: u16)
    requires
        pos + 2 <= buf@.len(),
    ensures
        r == le_u16_at(buf@, pos as int),
{
    LittleEndian::read_u16(&buf[pos..])
}

/// `LittleEndian::read_u32` on the bytes from `pos` on: the number whose little
/// endian encoding they start with.
#[verifier::external_body]
pub(crate) fn read_u32_at(buf: &[u8], pos: usize) -> (r: u32)
    requires
        pos + 4 <= buf@.len(),
    ensures
        r == le_u32_at(buf@, pos as int),
{
    LittleEndian::read_u32(&buf[pos..])
}

/// `LittleEndian::read_u64` on the bytes from `pos` on: the number whose little
/// endian encoding they start with.
#[verifier::external_body]
pub(crate) fn read_u64_at(buf: &[u8], pos: usize) -> (r: u64)
    requires
        pos + 8 <= buf@.len(),
    ensures
        r == le_u64_at(buf@, pos as int),
{
    LittleEndian::read_u64(&buf[pos..])
}

/// `LittleEndian::write_u16` into a fresh two byte buffer: the little endian bytes of `n`.
#[verifier::external_body]
pub(crate) fn write_u16(n: u16) -> (r: [u8; 2])
    ensures
        r@ == u16_bytes(n),
{
    let mut b = [0u8; 2];
    LittleEndian::write_u16(&mut b, n);
    b
}

/// `LittleEndian::write_u32` into a fresh four byte buffer: the little endian bytes of `n`.
#[verifier::external_body]
pub(crate) fn write_u32(n: u32) -> (r: [u8; 4])
    ensures
        r@ == u32_bytes(n),
{
    let mut b = [0u8; 4];
    LittleEndian::write_u32(&mut b, n);
    b
}

/// `LittleEndian::write_u64` into a fresh eight byte buffer: the little endian bytes of `n`.
#[verifier::external_body]
pub(crate) fn write_u64(n: u64) -> (r: [u8; 8])
    ensures
        r@ == u64_bytes(n),
{
    let mut b = [0u8; 8];
    LittleEndian::write_u64(&mut b, n);
    b
}

/// Compares two strings character by character through their UTF-8 bytes.
pub fn str_eq(a: &str, b: &str) -> (r: bool)
    ensures
        r == (a@ == b@),
{
    let x = a.as_bytes();
    let y = b.as_bytes();
    proof {
        vstd::utf8::encode_utf8_decode_utf8(a@);
        vstd::utf8::encode_utf8_decode_utf8(b@);
    }
    if x.len() != y.len() {
        return false;
    }
    let mut i: usize = 0;
    while i < x.len()
        invariant
            x@.len() == y@.len(),
            x@ == a.spec_bytes(),
            y@ == b.spec_bytes(),
            i <= x@.len(),
            forall|j: int| 0 <= j < i ==> x@[j] == y@[j],
        decreases x@.len() - i,
    {
        if x[i] != y[i] {
            return false;
        }
        i = i + 1;
    }
    assert(x@ =~= y@);
    true
}

/// Appends the little endian bytes of `n` to `out`.
pub fn push_u16(out: &mut Vec<u8>, n: u16)
    ensures
        final(out)@ == old(out)@ + u16_bytes(n),
{
    let b = write_u16(n);
    out.push(b[0]);
    out.push(b[1]);
    assert(final(out)@ =~= old(out)@ + u16_bytes(n));
}

/// Appends the little endian bytes of `n` to `out`.
pub fn push_u32(out: &mut Vec<u8>, n: u32)
    ensures
        final(out)@ == old(out)@ + u32_bytes(n),
{
    let b = write_u32(n);
    let mut i: usize = 0;
    while i < 4
        invariant
            i <= 4,
            b@ == u32_bytes(n),
            out@ == old(out)@ + b@.subrange(0, i as int),
        decreases 4 - i,
    {
        out.push(b[i]);
        assert(b@.subrange(0, i + 1) =~= b@.subrange(0, i as int).push(b@[i as int]));
        i = i + 1;
    }
    assert(b@.subrange(0, 4) =~= b@);
}

/// Appends the little endian bytes of `n` to `out`.
pub fn push_u64(out: &mut Vec<u8>, n: u64)
    ensures
        final(out)@ == old(out)@ + u64_bytes(n),
{
    let b = write_u64(n);
    let mut i: usize = 0;
    while i < 8
        invariant
            i <= 8,
            b@ == u64_bytes(n),
            out@ == old(out)@ + b@.subrange(0, i as int),
        decreases 8 - i,
    {
        out.push(b[i]);
        assert(b@.subrange(0, i + 1) =~= b@.subrange(0, i as int).push(b@[i as int]));
        i = i + 1;
    }
    assert(b@.subrange(0, 8) =~= b@);
}

/// Reading back the bytes of a 16 bit number gives the number.
pub proof fn lemma_u16_roundtrip(n: u16, b: Seq<u8>, p: int)
    requires
        0 <= p,
        p + 2 <= b.len(),
        b.subrange(p, p + 2) == u16_bytes(n),
    ensures
        le_u16_at(b, p) == n,
{
    assert(b[p] == u16_bytes(n)[0]);
    assert(b[p + 1] == u16_bytes(n)[1]);
    let b0 = b[p];
    let b1 = b[p + 1];
    assert(b0 == (n & 0xff) as u8 && b1 == ((n >> 8) & 0xff) as u8 ==> ((b0 as u16) | ((b1 as u16)
        << 8)) as u16 == n) by (bit_vector);
}

/// Reading back the bytes of a 32 bit number gives the number.
pub proof fn lemma_u32_roundtrip(n: u32, b: Seq<u8>, p: int)
    requires
        0 <= p,
        p + 4 <= b.len(),
        b.subrange(p, p + 4) == u32_bytes(n),
    ensures
        le_u32_at(b, p) == n,
{
    assert(b[p] == u32_bytes(n)[0]);
    assert(b[p + 1] == u32_bytes(n)[1]);
    assert(b[p + 2] == u32_bytes(n)[2]);
    assert(b[p + 3] == u32_bytes(n)[3]);
    let b0 = b[p];
    let b1 = b[p + 1];
    let b2 = b[p + 2];
    let b3 = b[p + 3];
    assert(b0 == (n & 0xff) as u8 && b1 == ((n >> 8) & 0xff) as u8 && b2 == ((n >> 16) & 0xff) as u8
        && b3 == ((n >> 24) & 0xff) as u8 ==> ((b0 as u32) | ((b1 as u32) << 8) | ((b2 as u32)
        << 16) | ((b3 as u32) << 24)) as u32 == n) by (bit_vector);
}

/// Writing the number read from four bytes gives back those bytes.
pub proof fn lemma_u32_bytes_of_read(b: Seq<u8>, p: int)
    requires
        0 <= p,
        p + 4 <= b.len(),
    ensures
        u32_bytes(le_u32_at(b, p)) == b.subrange(p, p + 4),
{
    let b0 = b[p];
    let b1 = b[p + 1];
    let b2 = b[p + 2];
    let b3 = b[p + 3];
    let n = le_u32_at(b, p);
    assert(n == ((b0 as u32) | ((b1 as u32) << 8) | ((b2 as u32) << 16) | ((b3 as u32)
        << 24)) as u32);
    assert(n == ((b0 as u32) | ((b1 as u32) << 8) | ((b2 as u32) << 16) | ((b3 as u32)
        << 24)) as u32 ==> (n & 0xff) as u8 == b0 && ((n >> 8) & 0xff) as u8 == b1 && ((n >> 16)
        & 0xff) as u8 == b2 && ((n >> 24) & 0xff) as u8 == b3) by (bit_vector);
    assert(u32_bytes(n) =~= b.subrange(p, p + 4));
}

/// Reading back the bytes of a 64 bit number gives the number.
pub proof fn lemma_u64_roundtrip(n: u64, b: Seq<u8>, p: int)
    requires
        0 <= p,
        p + 8 <= b.len(),
        b.subrange(p, p + 8) == u64_bytes(n),
    ensures
        le_u64_at(b, p) == n,
{
    assert(b[p] == u64_bytes(n)[0]);
    assert(b[p + 1] == u64_bytes(n)[1]);
    assert(b[p + 2] == u64_bytes(n)[2]);
    assert(b[p + 3] == u64_bytes(n)[3]);
    assert(b[p + 4] == u64_bytes(n)[4]);
    assert(b[p + 5] == u64_bytes(n)[5]);
    assert(b[p + 6] == u64_bytes(n)[6]);
    assert(b[p + 7] == u64_bytes(n)[7]);
    let b0 = b[p];
    let b1 = b[p + 1];
    let b2 = b[p + 2];
    let b3 = b[p + 3];
    let b4 = b[p + 4];
    let b5 = b[p + 5];
    let b6 = b[p + 6];
    let b7 = b[p + 7];
    assert(b0 == (n & 0xff) as u8 && b1 == ((n >> 8) & 0xff) as u8 && b2 == ((n >> 16) & 0xff) as u8
        && b3 == ((n >> 24) & 0xff) as u8 && b4 == ((n >> 32) & 0xff) as u8 && b5 == ((n >> 40)
        & 0xff) as u8 && b6 == ((n >> 48) & 0xff) as u8 && b7 == ((n >> 56) & 0xff) as u8
        ==> ((b0 as u64) | ((b1 as u64) << 8) | ((b2 as u64) << 16) | ((b3 as u64) << 24) | ((
    b4 as u64) << 32) | ((b5 as u64) << 40) | ((b6 as u64) << 48) | ((b7 as u64) << 56)) as u64
        == n) by (bit_vector);
}

} // verus!
