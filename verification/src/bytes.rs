//! Big-endian integer encodings used in packet headers and CCM blocks.
use vstd::prelude::*;

verus! {

/// Two-byte big-endian encoding of `v` modulo 2^16.
pub open spec fn be16(v: int) -> Seq<u8> {
    seq![((v / 0x100) % 0x100) as u8, (v % 0x100) as u8]
}

/// Four-byte big-endian encoding of `v` modulo 2^32.
pub open spec fn be32(v: int) -> Seq<u8> {
    seq![
        ((v / 0x100_0000) % 0x100) as u8,
        ((v / 0x1_0000) % 0x100) as u8,
        ((v / 0x100) % 0x100) as u8,
        (v % 0x100) as u8,
    ]
}

/// Five-byte big-endian encoding of `v` modulo 2^40.
pub open spec fn be40(v: int) -> Seq<u8> {
    seq![
        ((v / 0x1_0000_0000) % 0x100) as u8,
        ((v / 0x100_0000) % 0x100) as u8,
        ((v / 0x1_0000) % 0x100) as u8,
        ((v / 0x100) % 0x100) as u8,
        (v % 0x100) as u8,
    ]
}

/// The integer whose big-endian encoding is the first four bytes of `s`.
pub open spec fn be32_value(s: Seq<u8>) -> int {
    s[0] * 0x100_0000 + s[1] * 0x1_0000 + s[2] * 0x100 + s[3]
}

/// The integer whose big-endian encoding is the first five bytes of `s`.
pub open spec fn be40_value(s: Seq<u8>) -> int {
    s[0] * 0x1_0000_0000 + s[1] * 0x100_0000 + s[2] * 0x1_0000 + s[3] * 0x100 + s[4]
}

/// Decoding a four-byte big-endian encoding gives back the encoded value.
pub proof fn lemma_be32_roundtrip(v: int)
    requires
        0 <= v < 0x1_0000_0000,
    ensures
        be32_value(be32(v)) == v,
        be32(v).len() == 4,
        be32(v)[0] * 0x100_0000 + be32(v)[1] * 0x1_0000 + be32(v)[2] * 0x100 + be32(v)[3] == v,
{
    let b0 = v / 0x100_0000;
    let r0 = v % 0x100_0000;
    let b1 = r0 / 0x1_0000;
    let r1 = r0 % 0x1_0000;
    let b2 = r1 / 0x100;
    let b3 = r1 % 0x100;
    assert(v == b0 * 0x100_0000 + b1 * 0x1_0000 + b2 * 0x100 + b3) by (nonlinear_arith)
        requires
            b0 == v / 0x100_0000,
            r0 == v % 0x100_0000,
            b1 == r0 / 0x1_0000,
            r1 == r0 % 0x1_0000,
            b2 == r1 / 0x100,
            b3 == r1 % 0x100,
    ;
    assert((v / 0x1_0000) % 0x100 == b1) by (nonlinear_arith)
        requires
            0 <= v,
            b0 == v / 0x100_0000,
            r0 == v % 0x100_0000,
            b1 == r0 / 0x1_0000,
    ;
    assert((v / 0x100) % 0x100 == b2) by (nonlinear_arith)
        requires
            0 <= v,
            r0 == v % 0x100_0000,
            r1 == r0 % 0x1_0000,
            b2 == r1 / 0x100,
    ;
    assert(v % 0x100 == b3) by (nonlinear_arith)
        requires
            0 <= v,
            r0 == v % 0x100_0000,
            r1 == r0 % 0x1_0000,
            b3 == r1 % 0x100,
    ;
}

/// The two bytes of a 16-bit big-endian encoding, read back, give the value.
pub proof fn lemma_be16_roundtrip(v: int)
    requires
        0 <= v < 0x1_0000,
    ensures
        be16(v).len() == 2,
        be16(v)[0] * 0x100 + be16(v)[1] == v,
{
    assert(v == (v / 0x100) % 0x100 * 0x100 + v % 0x100);
}

/// Decoding a five-byte big-endian encoding gives back the encoded value.
pub proof fn lemma_be40_roundtrip(v: int)
    requires
        0 <= v < 0x100_0000_0000,
    ensures
        be40_value(be40(v)) == v,
        be40(v).len() == 5,
        be40(v)[0] * 0x1_0000_0000 + be40(v)[1] * 0x100_0000 + be40(v)[2] * 0x1_0000 + be40(v)[3]
            * 0x100 + be40(v)[4] == v,
{
    let hi = v / 0x1_0000_0000;
    let lo = v % 0x1_0000_0000;
    assert(v == hi * 0x1_0000_0000 + lo) by (nonlinear_arith)
        requires
            hi == v / 0x1_0000_0000,
            lo == v % 0x1_0000_0000,
    ;
    assert(hi % 0x100 == hi) by (nonlinear_arith)
        requires
            hi == v / 0x1_0000_0000,
            0 <= v < 0x100_0000_0000,
    ;
    assert((v / 0x100_0000) % 0x100 == (lo / 0x100_0000) % 0x100) by (nonlinear_arith)
        requires
            hi == v / 0x1_0000_0000,
            lo == v % 0x1_0000_0000,
            0 <= v,
    ;
    assert((v / 0x1_0000) % 0x100 == (lo / 0x1_0000) % 0x100) by (nonlinear_arith)
        requires
            hi == v / 0x1_0000_0000,
            lo == v % 0x1_0000_0000,
            0 <= v,
    ;
    assert((v / 0x100) % 0x100 == (lo / 0x100) % 0x100) by (nonlinear_arith)
        requires
            hi == v / 0x1_0000_0000,
            lo == v % 0x1_0000_0000,
            0 <= v,
    ;
    assert(v % 0x100 == lo % 0x100) by (nonlinear_arith)
        requires
            hi == v / 0x1_0000_0000,
            lo == v % 0x1_0000_0000,
            0 <= v,
    ;
    lemma_be32_roundtrip(lo);
}

/// Encoding the value read from five bytes gives back those bytes.
pub proof fn lemma_be40_value_roundtrip(s: Seq<u8>)
    requires
        s.len() == 5,
    ensures
        0 <= be40_value(s) < 0x100_0000_0000,
        be40(be40_value(s)) == s,
{
    let v = be40_value(s);
    let a = s[0] as int;
    let b = s[1] as int;
    let c = s[2] as int;
    let d = s[3] as int;
    let e = s[4] as int;
    assert(v / 0x1_0000_0000 == a && (v / 0x100_0000) % 0x100 == b && (v / 0x1_0000) % 0x100 == c
        && (v / 0x100) % 0x100 == d && v % 0x100 == e) by (nonlinear_arith)
        requires
            v == a * 0x1_0000_0000 + b * 0x100_0000 + c * 0x1_0000 + d * 0x100 + e,
            0 <= a < 0x100,
            0 <= b < 0x100,
            0 <= c < 0x100,
            0 <= d < 0x100,
            0 <= e < 0x100,
    ;
    assert(be40(v) =~= s);
}

/// Encoding the value read from four bytes gives back those bytes.
pub proof fn lemma_be32_value_roundtrip(s: Seq<u8>)
    requires
        s.len() == 4,
    ensures
        0 <= be32_value(s) < 0x1_0000_0000,
        be32(be32_value(s)) == s,
{
    let v = be32_value(s);
    let b = s[0] as int;
    let c = s[1] as int;
    let d = s[2] as int;
    let e = s[3] as int;
    assert((v / 0x100_0000) % 0x100 == b && (v / 0x1_0000) % 0x100 == c && (v / 0x100) % 0x100 == d
        && v % 0x100 == e) by (nonlinear_arith)
        requires
            v == b * 0x100_0000 + c * 0x1_0000 + d * 0x100 + e,
            0 <= b < 0x100,
            0 <= c < 0x100,
            0 <= d < 0x100,
            0 <= e < 0x100,
    ;
    assert(be32(v) =~= s);
}

/// Big-endian bytes of a `u16`.
pub fn u16_to_be(v: u16) -> (r: [u8; 2])
    ensures
        r@ == be16(v as int),
{
    let r: [u8; 2] = [((v / 0x100) % 0x100) as u8, (v % 0x100) as u8];
    assert(r@ =~= be16(v as int));
    r
}

/// Big-endian bytes of a `u32`.
pub fn u32_to_be(v: u32) -> (r: [u8; 4])
    ensures
        r@ == be32(v as int),
{
    let r: [u8; 4] = [
        ((v / 0x100_0000) % 0x100) as u8,
        ((v / 0x1_0000) % 0x100) as u8,
        ((v / 0x100) % 0x100) as u8,
        (v % 0x100) as u8,
    ];
    assert(r@ =~= be32(v as int));
    r
}

/// The `u32` encoded big-endian in `s[start..start + 4]`.
pub fn u32_from_be(s: &[u8], start: usize) -> (r: u32)
    requires
        start + 4 <= s@.len(),
    ensures
        r == be32_value(s@.subrange(start as int, start + 4)),
{
    let r: u32 = (s[start] as u32) * 0x100_0000 + (s[start + 1] as u32) * 0x1_0000 + (s[start + 2]
        as u32) * 0x100 + (s[start + 3] as u32);
    r
}

/// The counter encoded big-endian in `s[start..start + 5]`.
pub fn u40_from_be(s: &[u8], start: usize) -> (r: u64)
    requires
        start + 5 <= s@.len(),
    ensures
        r == be40_value(s@.subrange(start as int, start + 5)),
        r < 0x100_0000_0000,
{
    let r: u64 = (s[start] as u64) * 0x1_0000_0000 + (s[start + 1] as u64) * 0x100_0000 + (s[start
        + 2] as u64) * 0x1_0000 + (s[start + 3] as u64) * 0x100 + (s[start + 4] as u64);
    r
}

/// Whether two byte strings are equal.
pub fn bytes_eq(a: &[u8], b: &[u8]) -> (r: bool)
    ensures
        r == (a@ == b@),
{
    if a.len() != b.len() {
        return false;
    }
    let mut i: usize = 0;
    while i < a.len()
        invariant
            0 <= i <= a@.len(),
            a@.len() == b@.len(),
            forall|j: int| 0 <= j < i ==> a@[j] == b@[j],
        decreases a@.len() - i,
    {
        if a[i] != b[i] {
            return false;
        }
        i = i + 1;
    }
    assert(a@ =~= b@);
    true
}

} // verus!
