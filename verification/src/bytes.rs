use vstd::prelude::*;

verus! {

/// Big-endian encoding of a `u16`.
pub open spec fn be16(x: u16) -> Seq<u8> {
    seq![(x >> 8u16) as u8, x as u8]
}

/// Big-endian encoding of a `u32`.
pub open spec fn be32(x: u32) -> Seq<u8> {
    seq![(x >> 24u32) as u8, (x >> 16u32) as u8, (x >> 8u32) as u8, x as u8]
}

/// Big-endian encoding of a `u64`.
pub open spec fn be64(x: u64) -> Seq<u8> {
    seq![
        (x >> 56u64) as u8, (x >> 48u64) as u8, (x >> 40u64) as u8, (x >> 32u64) as u8,
        (x >> 24u64) as u8, (x >> 16u64) as u8, (x >> 8u64) as u8, x as u8,
    ]
}

/// Little-endian encoding of a `u16`.
pub open spec fn le16(x: u16) -> Seq<u8> {
    be16(x).reverse()
}

/// Little-endian encoding of a `u32`.
pub open spec fn le32(x: u32) -> Seq<u8> {
    be32(x).reverse()
}

/// Little-endian encoding of a `u64`.
pub open spec fn le64(x: u64) -> Seq<u8> {
    be64(x).reverse()
}

/// The `u16` whose big-endian encoding is `s[0..2]`.
pub open spec fn from_be16(s: Seq<u8>) -> u16 {
    ((s[0] as u16) << 8u16) | (s[1] as u16)
}

/// The `u32` whose big-endian encoding is `s[0..4]`.
pub open spec fn from_be32(s: Seq<u8>) -> u32 {
    ((s[0] as u32) << 24u32) | ((s[1] as u32) << 16u32) | ((s[2] as u32) << 8u32) | (s[3] as u32)
}

/// The `u64` whose big-endian encoding is `s[0..8]`.
pub open spec fn from_be64(s: Seq<u8>) -> u64 {
    ((s[0] as u64) << 56u64) | ((s[1] as u64) << 48u64) | ((s[2] as u64) << 40u64)
        | ((s[3] as u64) << 32u64) | ((s[4] as u64) << 24u64) | ((s[5] as u64) << 16u64)
        | ((s[6] as u64) << 8u64) | (s[7] as u64)
}

/// The `u16` whose little-endian encoding is `s[0..2]`.
pub open spec fn from_le16(s: Seq<u8>) -> u16 {
    ((s[1] as u16) << 8u16) | (s[0] as u16)
}

/// The `u32` whose little-endian encoding is `s[0..4]`.
pub open spec fn from_le32(s: Seq<u8>) -> u32 {
    ((s[3] as u32) << 24u32) | ((s[2] as u32) << 16u32) | ((s[1] as u32) << 8u32) | (s[0] as u32)
}

/// The `u64` whose little-endian encoding is `s[0..8]`.
pub open spec fn from_le64(s: Seq<u8>) -> u64 {
    ((s[7] as u64) << 56u64) | ((s[6] as u64) << 48u64) | ((s[5] as u64) << 40u64)
        | ((s[4] as u64) << 32u64) | ((s[3] as u64) << 24u64) | ((s[2] as u64) << 16u64)
        | ((s[1] as u64) << 8u64) | (s[0] as u64)
}

/// Decoding a big-endian `u16` encoding gives the value back.
pub proof fn lemma_be16_roundtrip(x: u16)
    ensures from_be16(be16(x)) == x,
{
    let a = (x >> 8u16) as u8;
    let b = x as u8;
    assert((((a as u16) << 8u16) | (b as u16)) == x) by (bit_vector)
        requires a == (x >> 8u16) as u8, b == x as u8;
}

/// Decoding a big-endian `u32` encoding gives the value back.
pub proof fn lemma_be32_roundtrip(x: u32)
    ensures from_be32(be32(x)) == x,
{
    let (a, b, c, d) = ((x >> 24u32) as u8, (x >> 16u32) as u8, (x >> 8u32) as u8, x as u8);
    assert((((a as u32) << 24u32) | ((b as u32) << 16u32) | ((c as u32) << 8u32) | (d as u32)) == x)
        by (bit_vector)
        requires a == (x >> 24u32) as u8, b == (x >> 16u32) as u8, c == (x >> 8u32) as u8, d == x as u8;
}

/// Decoding a big-endian `u64` encoding gives the value back.
pub proof fn lemma_be64_roundtrip(x: u64)
    ensures from_be64(be64(x)) == x,
{
    let s = be64(x);
    let (a, b, c, d) = (s[0], s[1], s[2], s[3]);
    let (e, f, g, h) = (s[4], s[5], s[6], s[7]);
    assert(((a as u64) << 56u64) | ((b as u64) << 48u64) | ((c as u64) << 40u64)
        | ((d as u64) << 32u64) | ((e as u64) << 24u64) | ((f as u64) << 16u64)
        | ((g as u64) << 8u64) | (h as u64) == x) by (bit_vector)
        requires
            a == (x >> 56u64) as u8, b == (x >> 48u64) as u8, c == (x >> 40u64) as u8,
            d == (x >> 32u64) as u8, e == (x >> 24u64) as u8, f == (x >> 16u64) as u8,
            g == (x >> 8u64) as u8, h == x as u8;
}

/// Decoding a little-endian `u64` encoding gives the value back.
pub proof fn lemma_le64_roundtrip(x: u64)
    ensures from_le64(le64(x)) == x,
{
    lemma_be64_roundtrip(x);
    assert(le64(x) =~= seq![be64(x)[7], be64(x)[6], be64(x)[5], be64(x)[4], be64(x)[3], be64(x)[2], be64(x)[1], be64(x)[0]]);
}

/// Decoding a little-endian `u32` encoding gives the value back.
pub proof fn lemma_le32_roundtrip(x: u32)
    ensures from_le32(le32(x)) == x,
{
    lemma_be32_roundtrip(x);
    assert(le32(x) =~= seq![be32(x)[3], be32(x)[2], be32(x)[1], be32(x)[0]]);
}

/// Big-endian bytes of a `u16`.
pub fn u16_to_be(x: u16) -> (r: [u8; 2])
    ensures r@ == be16(x),
{
    let r = [(x >> 8) as u8, x as u8];
    assert(r@ =~= be16(x));
    r
}

/// Big-endian bytes of a `u32`.
pub fn u32_to_be(x: u32) -> (r: [u8; 4])
    ensures r@ == be32(x),
{
    let r = [(x >> 24) as u8, (x >> 16) as u8, (x >> 8) as u8, x as u8];
    assert(r@ =~= be32(x));
    r
}

/// Big-endian bytes of a `u64`.
pub fn u64_to_be(x: u64) -> (r: [u8; 8])
    ensures r@ == be64(x),
{
    let r = [
        (x >> 56) as u8, (x >> 48) as u8, (x >> 40) as u8, (x >> 32) as u8,
        (x >> 24) as u8, (x >> 16) as u8, (x >> 8) as u8, x as u8,
    ];
    assert(r@ =~= be64(x));
    r
}

/// Little-endian bytes of a `u16`.
pub fn u16_to_le(x: u16) -> (r: [u8; 2])
    ensures r@ == le16(x),
{
    let r = [x as u8, (x >> 8) as u8];
    assert(r@ =~= le16(x));
    r
}

/// Little-endian bytes of a `u32`.
pub fn u32_to_le(x: u32) -> (r: [u8; 4])
    ensures r@ == le32(x),
{
    let r = [x as u8, (x >> 8) as u8, (x >> 16) as u8, (x >> 24) as u8];
    assert(r@ =~= le32(x));
    r
}

/// Little-endian bytes of a `u64`.
pub fn u64_to_le(x: u64) -> (r: [u8; 8])
    ensures r@ == le64(x),
{
    let r = [
        x as u8, (x >> 8) as u8, (x >> 16) as u8, (x >> 24) as u8,
        (x >> 32) as u8, (x >> 40) as u8, (x >> 48) as u8, (x >> 56) as u8,
    ];
    assert(r@ =~= le64(x));
    r
}

/// Read a big-endian `u16` at `off`.
pub fn read_be16(b: &[u8], off: usize) -> (r: u16)
    requires off + 2 <= b@.len(),
    ensures r == from_be16(b@.subrange(off as int, off + 2)),
{
    let _n = b.len();
    ((b[off] as u16) << 8) | (b[off + 1] as u16)
}

/// Read a big-endian `u32` at `off`.
pub fn read_be32(b: &[u8], off: usize) -> (r: u32)
    requires off + 4 <= b@.len(),
    ensures r == from_be32(b@.subrange(off as int, off + 4)),
{
    let _n = b.len();
    ((b[off] as u32) << 24) | ((b[off + 1] as u32) << 16) | ((b[off + 2] as u32) << 8) | (b[off + 3] as u32)
}

/// Read a big-endian `u64` at `off`.
pub fn read_be64(b: &[u8], off: usize) -> (r: u64)
    requires off + 8 <= b@.len(),
    ensures r == from_be64(b@.subrange(off as int, off + 8)),
{
    let _n = b.len();
    ((b[off] as u64) << 56) | ((b[off + 1] as u64) << 48) | ((b[off + 2] as u64) << 40)
        | ((b[off + 3] as u64) << 32) | ((b[off + 4] as u64) << 24) | ((b[off + 5] as u64) << 16)
        | ((b[off + 6] as u64) << 8) | (b[off + 7] as u64)
}

/// Read a little-endian `u16` at `off`.
pub fn read_le16(b: &[u8], off: usize) -> (r: u16)
    requires off + 2 <= b@.len(),
    ensures r == from_le16(b@.subrange(off as int, off + 2)),
{
    let _n = b.len();
    ((b[off + 1] as u16) << 8) | (b[off] as u16)
}

/// Read a little-endian `u32` at `off`.
pub fn read_le32(b: &[u8], off: usize) -> (r: u32)
    requires off + 4 <= b@.len(),
    ensures r == from_le32(b@.subrange(off as int, off + 4)),
{
    let _n = b.len();
    ((b[off + 3] as u32) << 24) | ((b[off + 2] as u32) << 16) | ((b[off + 1] as u32) << 8) | (b[off] as u32)
}

/// Read a little-endian `u64` at `off`.
pub fn read_le64(b: &[u8], off: usize) -> (r: u64)
    requires off + 8 <= b@.len(),
    ensures r == from_le64(b@.subrange(off as int, off + 8)),
{
    let _n = b.len();
    ((b[off + 7] as u64) << 56) | ((b[off + 6] as u64) << 48) | ((b[off + 5] as u64) << 40)
        | ((b[off + 4] as u64) << 32) | ((b[off + 3] as u64) << 24) | ((b[off + 2] as u64) << 16)
        | ((b[off + 1] as u64) << 8) | (b[off] as u64)
}

/// Copy `src` into `dst` starting at `off`.
pub fn copy_into(dst: &mut [u8], off: usize, src: &[u8])
    requires off + src@.len() <= old(dst)@.len(),
    ensures
        final(dst)@.len() == old(dst)@.len(),
        final(dst)@ == old(dst)@.subrange(0, off as int) + src@
            + old(dst)@.subrange(off + src@.len(), old(dst)@.len() as int),
{
    let _n = dst.len();
    let mut i: usize = 0;
    while i < src.len()
        invariant
            off + src@.len() <= old(dst)@.len(),
            old(dst)@.len() <= usize::MAX,
            dst@.len() == old(dst)@.len(),
            i <= src@.len(),
            forall|k: int| 0 <= k < off ==> dst@[k] == old(dst)@[k],
            forall|k: int| off <= k < off + i ==> dst@[k] == src@[k - off],
            forall|k: int| off + i <= k < dst@.len() ==> dst@[k] == old(dst)@[k],
        decreases src@.len() - i,
    {
        dst[off + i] = src[i];
        i = i + 1;
    }
    assert(dst@ =~= old(dst)@.subrange(0, off as int) + src@
        + old(dst)@.subrange(off + src@.len(), old(dst)@.len() as int));
}


/// Append the bytes of `s` to `v`.
pub fn push_bytes(v: &mut Vec<u8>, s: &[u8])
    ensures final(v)@ == old(v)@ + s@,
{
    v.extend_from_slice(s);
    assert forall|i: int| 0 <= i < v@.len() implies #[trigger] v@[i] == (old(v)@ + s@)[i] by {}
    assert(v@ =~= old(v)@ + s@);
}

/// Copy `s[off..off+N)` into an array.
pub fn to_array<const N: usize>(s: &[u8], off: usize) -> (r: [u8; N])
    requires off + N <= s@.len(),
    ensures r@ == s@.subrange(off as int, off + N),
{
    let _n = s.len();
    let mut out = [0u8; N];
    let mut i: usize = 0;
    while i < N
        invariant
            off + N <= s@.len(), s@.len() == _n, i <= N, out@.len() == N,
            forall|j: int| 0 <= j < i ==> out@[j] == s@[off + j],
        decreases N - i,
    {
        out[i] = s[off + i];
        i += 1;
    }
    assert(out@ =~= s@.subrange(off as int, off + N));
    out
}

} // verus!
