//! Little-endian fields in byte strings.

use vstd::prelude::*;

verus! {

/// The byte at `at`, or 0 past either end.
pub open spec fn byte_at(b: Seq<u8>, at: int) -> u8 {
    if 0 <= at < b.len() {
        b[at]
    } else {
        0
    }
}

/// The 16-bit little-endian value at `at`; missing bytes read as zero.
pub open spec fn le16_at(b: Seq<u8>, at: int) -> u16 {
    (byte_at(b, at) + 256 * byte_at(b, at + 1)) as u16
}

/// The 32-bit little-endian value at `at`; missing bytes read as zero.
pub open spec fn le32_at(b: Seq<u8>, at: int) -> u32 {
    (le16_at(b, at) + 65536 * le16_at(b, at + 2)) as u32
}

/// The two little-endian bytes of `v`.
pub open spec fn u16_bytes(v: u16) -> Seq<u8> {
    seq![(v % 256) as u8, (v / 256) as u8]
}

/// The four little-endian bytes of `v`.
pub open spec fn u32_bytes(v: u32) -> Seq<u8> {
    seq![(v % 256) as u8, (v / 256 % 256) as u8, (v / 65536 % 256) as u8, (v / 16777216) as u8]
}

/// The two big-endian bytes of `v`.
pub open spec fn be16_bytes(v: u16) -> Seq<u8> {
    seq![(v / 256) as u8, (v % 256) as u8]
}

/// The four big-endian bytes of `v`.
pub open spec fn be32_bytes(v: u32) -> Seq<u8> {
    seq![(v / 16777216) as u8, (v / 65536 % 256) as u8, (v / 256 % 256) as u8, (v % 256) as u8]
}

/// The eight big-endian bytes of `v`.
pub open spec fn be64_bytes(v: u64) -> Seq<u8> {
    be32_bytes((v / 0x1_0000_0000) as u32) + be32_bytes((v % 0x1_0000_0000) as u32)
}

/// The 32-bit big-endian value at `at`.
pub open spec fn be32_at(b: Seq<u8>, at: int) -> u32 {
    (16777216 * b[at] + 65536 * b[at + 1] + 256 * b[at + 2] + b[at + 3]) as u32
}

/// The 64-bit big-endian value at `at`.
pub open spec fn be64_at(b: Seq<u8>, at: int) -> u64 {
    (0x1_0000_0000 * be32_at(b, at) + be32_at(b, at + 4)) as u64
}

/// A big-endian value reads back as it was written.
pub proof fn lemma_be32_round_trip(v: u32, b: Seq<u8>, at: int)
    requires
        0 <= at,
        at + 4 <= b.len(),
        b.subrange(at, at + 4) == be32_bytes(v),
    ensures
        be32_at(b, at) == v,
{
    let s = b.subrange(at, at + 4);
    assert(s[0] == b[at] && s[1] == b[at + 1] && s[2] == b[at + 2] && s[3] == b[at + 3]);
}

/// Reads a 32-bit big-endian value.
pub fn be32(b: &[u8], at: usize) -> (r: u32)
    requires
        at + 4 <= b@.len(),
    ensures
        r == be32_at(b@, at as int),
{
    16777216 * b[at] as u32 + 65536 * b[at + 1] as u32 + 256 * b[at + 2] as u32 + b[at + 3] as u32
}

/// Reads a 64-bit big-endian value.
pub fn be64(b: &[u8], at: usize) -> (r: u64)
    requires
        at + 8 <= b@.len(),
    ensures
        r == be64_at(b@, at as int),
{
    let n: usize = b.len();
    assert(at + 8 <= n);
    0x1_0000_0000 * be32(b, at) as u64 + be32(b, at + 4) as u64
}

/// Appends the big-endian bytes of a 32-bit value.
pub fn put_be32(out: &mut Vec<u8>, v: u32)
    ensures
        final(out)@ == old(out)@ + be32_bytes(v),
{
    out.push((v / 16777216) as u8);
    out.push((v / 65536 % 256) as u8);
    out.push((v / 256 % 256) as u8);
    out.push((v % 256) as u8);
    assert(final(out)@ =~= old(out)@ + be32_bytes(v));
}

/// `n` zero bytes.
pub open spec fn zeros(n: int) -> Seq<u8> {
    Seq::new(n as nat, |i: int| 0u8)
}

/// Appends zero bytes until the length is `len`.
pub fn pad_to(out: &mut Vec<u8>, len: usize)
    ensures
        final(out)@.len() == (if old(out)@.len() < len { len as nat } else { old(out)@.len() }),
        final(out)@ == old(out)@ + zeros(final(out)@.len() - old(out)@.len()),
{
    let ghost before = out@;
    assert(out@ =~= before + zeros(0));
    while out.len() < len
        invariant
            out@.len() >= before.len(),
            before.len() < len ==> out@.len() <= len,
            before.len() >= len ==> out@.len() == before.len(),
            out@ == before + zeros(out@.len() - before.len()),
        decreases len - out@.len(),
    {
        let ghost n = out@.len() - before.len();
        out.push(0);
        assert(out@ =~= before + zeros(n + 1));
    }
}

/// Appends the little-endian bytes of a 16-bit value.
pub fn put16(out: &mut Vec<u8>, v: u16)
    ensures
        final(out)@ == old(out)@ + u16_bytes(v),
{
    out.push((v % 256) as u8);
    out.push((v / 256) as u8);
    assert(final(out)@ =~= old(out)@ + u16_bytes(v));
}

/// Appends the little-endian bytes of a 32-bit value.
pub fn put32(out: &mut Vec<u8>, v: u32)
    ensures
        final(out)@ == old(out)@ + u32_bytes(v),
{
    out.push((v % 256) as u8);
    out.push((v / 256 % 256) as u8);
    out.push((v / 65536 % 256) as u8);
    out.push((v / 16777216) as u8);
    assert(final(out)@ =~= old(out)@ + u32_bytes(v));
}

/// Appends a byte string.
pub fn put(out: &mut Vec<u8>, s: &[u8])
    ensures
        final(out)@ == old(out)@ + s@,
{
    out.extend_from_slice(s);
    assert(final(out)@ =~= old(out)@ + s@);
}

/// A copy of the bytes of `b` from `from` up to `to`.
pub fn copy_range(b: &[u8], from: usize, to: usize) -> (r: Vec<u8>)
    requires
        from <= to <= b@.len(),
    ensures
        r@ == b@.subrange(from as int, to as int),
{
    vstd::slice::slice_to_vec(vstd::slice::slice_subrange(b, from, to))
}

/// A little-endian value reads back as it was written.
pub proof fn lemma_le_round_trip(v: u16, w: u32, before: Seq<u8>, after: Seq<u8>)
    ensures
        le16_at(before + u16_bytes(v) + after, before.len() as int) == v,
        le32_at(before + u32_bytes(w) + after, before.len() as int) == w,
{
    let a = before + u16_bytes(v) + after;
    let b = before + u32_bytes(w) + after;
    let n = before.len() as int;
    assert(a[n] == (v % 256) as u8 && a[n + 1] == (v / 256) as u8);
    assert(b[n] == (w % 256) as u8 && b[n + 1] == (w / 256 % 256) as u8);
    assert(b[n + 2] == (w / 65536 % 256) as u8 && b[n + 3] == (w / 16777216) as u8);
}

/// Reads the byte at `at`, or 0 past the end.
pub fn byte(b: &[u8], at: usize) -> (r: u8)
    ensures
        r == byte_at(b@, at as int),
{
    if at < b.len() {
        b[at]
    } else {
        0
    }
}

/// Reads a 16-bit little-endian value; missing bytes read as zero.
pub fn le16(b: &[u8], at: usize) -> (r: u16)
    requires
        at < usize::MAX,
    ensures
        r == le16_at(b@, at as int),
{
    byte(b, at) as u16 + 256 * byte(b, at + 1) as u16
}

/// Reads a 32-bit little-endian value; missing bytes read as zero.
pub fn le32(b: &[u8], at: usize) -> (r: u32)
    requires
        at <= usize::MAX - 3,
    ensures
        r == le32_at(b@, at as int),
{
    le16(b, at) as u32 + 65536 * le16(b, at + 2) as u32
}

/// Numbers are read in the byte order that their name says: of a
/// little-endian one the first byte counts least, of a big-endian one most.
pub proof fn lemma_byte_order(b: Seq<u8>, at: int)
    requires
        0 <= at,
        at + 8 <= b.len(),
    ensures
        le16_at(b, at) == b[at] + 0x100 * b[at + 1],
        le32_at(b, at) == b[at] + 0x100 * b[at + 1] + 0x1_0000 * b[at + 2] + 0x100_0000 * b[at + 3],
        be32_at(b, at) == 0x100_0000 * b[at] + 0x1_0000 * b[at + 1] + 0x100 * b[at + 2] + b[at + 3],
        be64_at(b, at) == 0x1_0000_0000 * be32_at(b, at) + be32_at(b, at + 4),
{
}

/// What lies behind the end of a list of bytes reads as zero.
pub proof fn lemma_missing_bytes_are_zero(b: Seq<u8>, at: int)
    requires
        at >= b.len(),
    ensures
        byte_at(b, at) == 0,
        le16_at(b, at) == 0,
        le32_at(b, at) == 0,
        at == b.len() && at > 0 ==> le16_at(b, at - 1) == b[at - 1],
{
}

/// Numbers are written in the byte order that their name says, in as many
/// bytes as they have.
pub proof fn lemma_written_byte_order(v: u16, w: u32, x: u64)
    ensures
        u16_bytes(v).len() == 2,
        u16_bytes(v)[0] + 0x100 * u16_bytes(v)[1] == v,
        u32_bytes(w).len() == 4,
        u32_bytes(w)[0] + 0x100 * u32_bytes(w)[1] + 0x1_0000 * u32_bytes(w)[2] + 0x100_0000 * u32_bytes(w)[3] == w,
        be16_bytes(v).len() == 2,
        0x100 * be16_bytes(v)[0] + be16_bytes(v)[1] == v,
        be32_bytes(w).len() == 4,
        0x100_0000 * be32_bytes(w)[0] + 0x1_0000 * be32_bytes(w)[1] + 0x100 * be32_bytes(w)[2] + be32_bytes(w)[3] == w,
        be64_bytes(x).len() == 8,
        be64_bytes(x).take(4) == be32_bytes((x / 0x1_0000_0000) as u32),
        be64_bytes(x).skip(4) == be32_bytes((x % 0x1_0000_0000) as u32),
{
    assert(be64_bytes(x).take(4) =~= be32_bytes((x / 0x1_0000_0000) as u32));
    assert(be64_bytes(x).skip(4) =~= be32_bytes((x % 0x1_0000_0000) as u32));
}

} // verus!
