//! Little-endian encoding of 16- and 32-bit integers in byte slices,
//! independent of the processor's own byte order.
use vstd::prelude::*;

verus! {

/// The value of two bytes read as a little-endian 16-bit integer.
pub open spec fn le16_value(s: Seq<u8>) -> int {
    s[0] + 256 * s[1]
}

/// The value of four bytes read as a little-endian 32-bit integer.
pub open spec fn le32_value(s: Seq<u8>) -> int {
    s[0] + 256 * s[1] + 65536 * s[2] + 16777216 * s[3]
}

/// The two bytes of `v`, least significant first.
pub open spec fn le16_bytes(v: u16) -> Seq<u8> {
    seq![(v % 256) as u8, (v / 256) as u8]
}

/// The four bytes of `v`, least significant first.
pub open spec fn le32_bytes(v: u32) -> Seq<u8> {
    seq![(v % 256) as u8, ((v / 256) % 256) as u8, ((v / 65536) % 256) as u8, (v / 16777216) as u8]
}

proof fn lemma_r16_bits(b0: u8, b1: u8)
    by (bit_vector)
    ensures
        ((b0 as u16) | ((b1 as u16) << 8)) == b0 + 256 * (b1 as u16),
{
}

proof fn lemma_r32_bits(b0: u8, b1: u8, b2: u8, b3: u8)
    by (bit_vector)
    ensures
        ((b0 as u32) | ((b1 as u32) << 8) | ((b2 as u32) << 16) | ((b3 as u32) << 24))
            == b0 + 256 * (b1 as u32) + 65536 * (b2 as u32) + 16777216 * (b3 as u32),
{
}

proof fn lemma_w16_bits(v: u16)
    by (bit_vector)
    ensures
        v as u8 == v % 256,
        (v >> 8) as u8 == v / 256,
{
}

proof fn lemma_w32_bits(v: u32)
    by (bit_vector)
    ensures
        v as u8 == v % 256,
        (v >> 8) as u8 == (v / 256) % 256,
        (v >> 16) as u8 == (v / 65536) % 256,
        (v >> 24) as u8 == v / 16777216,
{
}

/// Reads a little-endian 16-bit integer from the first two bytes of `data`.
pub fn dhara_r16(data: &[u8]) -> (r: u16)
    requires
        data@.len() >= 2,
    ensures
        r == le16_value(data@),
{
    proof {
        lemma_r16_bits(data@[0], data@[1]);
    }
    (data[0] as u16) | ((data[1] as u16) << 8)
}

/// Writes `v` as a little-endian 16-bit integer into the first two bytes
/// of `data`, leaving the rest of `data` unchanged.
pub fn dhara_w16(data: &mut [u8], v: u16)
    requires
        old(data)@.len() >= 2,
    ensures
        final(data)@ == le16_bytes(v) + old(data)@.subrange(2, old(data)@.len() as int),
{
    proof {
        lemma_w16_bits(v);
    }
    data[0] = v as u8;
    data[1] = (v >> 8) as u8;
    assert(data@ =~= le16_bytes(v) + old(data)@.subrange(2, old(data)@.len() as int));
}

/// Reads a little-endian 32-bit integer from the first four bytes of `data`.
pub fn dhara_r32(data: &[u8]) -> (r: u32)
    requires
        data@.len() >= 4,
    ensures
        r == le32_value(data@),
{
    proof {
        lemma_r32_bits(data@[0], data@[1], data@[2], data@[3]);
    }
    (data[0] as u32) | ((data[1] as u32) << 8) | ((data[2] as u32) << 16) | ((data[3] as u32) << 24)
}

/// Writes `v` as a little-endian 32-bit integer into the first four bytes
/// of `data`, leaving the rest of `data` unchanged.
pub fn dhara_w32(data: &mut [u8], v: u32)
    requires
        old(data)@.len() >= 4,
    ensures
        final(data)@ == le32_bytes(v) + old(data)@.subrange(4, old(data)@.len() as int),
{
    proof {
        lemma_w32_bits(v);
    }
    data[0] = v as u8;
    data[1] = (v >> 8) as u8;
    data[2] = (v >> 16) as u8;
    data[3] = (v >> 24) as u8;
    assert(data@ =~= le32_bytes(v) + old(data)@.subrange(4, old(data)@.len() as int));
}

} // verus!

verus! {

/// The value of the four bytes of `s` starting at `off`, little-endian.
pub open spec fn get32(s: Seq<u8>, off: int) -> int {
    s[off] + 256 * s[off + 1] + 65536 * s[off + 2] + 16777216 * s[off + 3]
}

/// `s` with the four bytes starting at `off` replaced by `v`, little-endian.
pub open spec fn put32(s: Seq<u8>, off: int, v: u32) -> Seq<u8> {
    s.update(off, (v % 256) as u8).update(off + 1, ((v / 256) % 256) as u8).update(
        off + 2,
        ((v / 65536) % 256) as u8,
    ).update(off + 3, (v / 16777216) as u8)
}

proof fn lemma_bytes_recombine(v: u32)
    by (bit_vector)
    ensures
        (v % 256) + 256 * ((v / 256) % 256) + 65536 * ((v / 65536) % 256) + 16777216 * (v / 16777216) == v,
{
}

/// Reading back four bytes written at an offset gives the value written,
/// and the bytes outside the four are untouched.
pub proof fn lemma_get_put32(s: Seq<u8>, off: int, v: u32)
    requires
        0 <= off,
        off + 4 <= s.len(),
    ensures
        get32(put32(s, off, v), off) == v,
        put32(s, off, v).len() == s.len(),
        forall|i: int| 0 <= i < s.len() && !(off <= i < off + 4) ==> #[trigger] put32(s, off, v)[i] == s[i],
{
    lemma_bytes_recombine(v);
}

/// Reading a 32-bit value back after writing it with `dhara_w32` gives the
/// value written.
pub proof fn lemma_r32_w32(s: Seq<u8>, v: u32)
    requires
        s.len() >= 4,
    ensures
        le32_value(le32_bytes(v) + s.subrange(4, s.len() as int)) == v,
{
    lemma_bytes_recombine(v);
}

/// Writing back the value read by `dhara_r32` leaves the bytes as they were.
pub proof fn lemma_w32_r32(s: Seq<u8>)
    requires
        s.len() >= 4,
    ensures
        0 <= le32_value(s) <= u32::MAX,
        le32_bytes(le32_value(s) as u32) + s.subrange(4, s.len() as int) == s,
{
    let v = le32_value(s);
    assert(0 <= v <= u32::MAX);
    let w = v as u32;
    lemma_le32_split(s[0], s[1], s[2], s[3]);
    assert(le32_bytes(w) + s.subrange(4, s.len() as int) =~= s);
}

proof fn lemma_le32_split(b0: u8, b1: u8, b2: u8, b3: u8)
    by (nonlinear_arith)
    ensures
        ({
            let v = b0 + 256 * b1 + 65536 * b2 + 16777216 * b3;
            &&& v % 256 == b0
            &&& (v / 256) % 256 == b1
            &&& (v / 65536) % 256 == b2
            &&& v / 16777216 == b3
        }),
{
}

/// Reading a 16-bit value back after writing it with `dhara_w16` gives the
/// value written.
pub proof fn lemma_r16_w16(s: Seq<u8>, v: u16)
    requires
        s.len() >= 2,
    ensures
        le16_value(le16_bytes(v) + s.subrange(2, s.len() as int)) == v,
{
}

/// Writing back the value read by `dhara_r16` leaves the bytes as they were.
pub proof fn lemma_w16_r16(s: Seq<u8>)
    requires
        s.len() >= 2,
    ensures
        0 <= le16_value(s) <= u16::MAX,
        le16_bytes(le16_value(s) as u16) + s.subrange(2, s.len() as int) == s,
{
    let v = le16_value(s);
    lemma_le16_split(s[0], s[1]);
    assert(le16_bytes(v as u16) + s.subrange(2, s.len() as int) =~= s);
}

proof fn lemma_le16_split(b0: u8, b1: u8)
    by (nonlinear_arith)
    ensures
        ({
            let v = b0 + 256 * b1;
            &&& v % 256 == b0
            &&& v / 256 == b1
        }),
{
}

/// Reads four bytes at `off` as a little-endian 32-bit integer.
pub fn read_u32_at(data: &[u8], off: usize) -> (r: u32)
    requires
        off + 4 <= data@.len(),
    ensures
        r == get32(data@, off as int),
{
    proof {
        lemma_r32_bits(data@[off as int], data@[off + 1], data@[off + 2], data@[off + 3]);
    }
    (data[off] as u32) | ((data[off + 1] as u32) << 8) | ((data[off + 2] as u32) << 16) | ((
    data[off + 3] as u32) << 24)
}

/// Writes `v` as a little-endian 32-bit integer into the four bytes at `off`.
pub fn write_u32_at(data: &mut [u8], off: usize, v: u32)
    requires
        off + 4 <= old(data)@.len(),
    ensures
        final(data)@ == put32(old(data)@, off as int, v),
{
    proof {
        lemma_w32_bits(v);
    }
    data[off] = v as u8;
    data[off + 1] = (v >> 8) as u8;
    data[off + 2] = (v >> 16) as u8;
    data[off + 3] = (v >> 24) as u8;
}

} // verus!
