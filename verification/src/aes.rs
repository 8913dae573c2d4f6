//! The AES-128 block cipher (FIPS-197) as a specification: the function
//! every [`Encrypt`](crate::ccm::Encrypt) implementation computes.
//!
//! The state is 16 bytes in column-major order: row `r` of column `c` is
//! byte `r + 4 * c`.
use vstd::prelude::*;

verus! {

/// The AES S-box: byte `b` is replaced by entry `b` of the table.
pub open spec fn sub_byte(b: u8) -> u8 {
    match b {
        0x00 => 0x63, 0x01 => 0x7c, 0x02 => 0x77, 0x03 => 0x7b, 0x04 => 0xf2, 0x05 => 0x6b, 0x06 => 0x6f, 0x07 => 0xc5,
        0x08 => 0x30, 0x09 => 0x01, 0x0a => 0x67, 0x0b => 0x2b, 0x0c => 0xfe, 0x0d => 0xd7, 0x0e => 0xab, 0x0f => 0x76,
        0x10 => 0xca, 0x11 => 0x82, 0x12 => 0xc9, 0x13 => 0x7d, 0x14 => 0xfa, 0x15 => 0x59, 0x16 => 0x47, 0x17 => 0xf0,
        0x18 => 0xad, 0x19 => 0xd4, 0x1a => 0xa2, 0x1b => 0xaf, 0x1c => 0x9c, 0x1d => 0xa4, 0x1e => 0x72, 0x1f => 0xc0,
        0x20 => 0xb7, 0x21 => 0xfd, 0x22 => 0x93, 0x23 => 0x26, 0x24 => 0x36, 0x25 => 0x3f, 0x26 => 0xf7, 0x27 => 0xcc,
        0x28 => 0x34, 0x29 => 0xa5, 0x2a => 0xe5, 0x2b => 0xf1, 0x2c => 0x71, 0x2d => 0xd8, 0x2e => 0x31, 0x2f => 0x15,
        0x30 => 0x04, 0x31 => 0xc7, 0x32 => 0x23, 0x33 => 0xc3, 0x34 => 0x18, 0x35 => 0x96, 0x36 => 0x05, 0x37 => 0x9a,
        0x38 => 0x07, 0x39 => 0x12, 0x3a => 0x80, 0x3b => 0xe2, 0x3c => 0xeb, 0x3d => 0x27, 0x3e => 0xb2, 0x3f => 0x75,
        0x40 => 0x09, 0x41 => 0x83, 0x42 => 0x2c, 0x43 => 0x1a, 0x44 => 0x1b, 0x45 => 0x6e, 0x46 => 0x5a, 0x47 => 0xa0,
        0x48 => 0x52, 0x49 => 0x3b, 0x4a => 0xd6, 0x4b => 0xb3, 0x4c => 0x29, 0x4d => 0xe3, 0x4e => 0x2f, 0x4f => 0x84,
        0x50 => 0x53, 0x51 => 0xd1, 0x52 => 0x00, 0x53 => 0xed, 0x54 => 0x20, 0x55 => 0xfc, 0x56 => 0xb1, 0x57 => 0x5b,
        0x58 => 0x6a, 0x59 => 0xcb, 0x5a => 0xbe, 0x5b => 0x39, 0x5c => 0x4a, 0x5d => 0x4c, 0x5e => 0x58, 0x5f => 0xcf,
        0x60 => 0xd0, 0x61 => 0xef, 0x62 => 0xaa, 0x63 => 0xfb, 0x64 => 0x43, 0x65 => 0x4d, 0x66 => 0x33, 0x67 => 0x85,
        0x68 => 0x45, 0x69 => 0xf9, 0x6a => 0x02, 0x6b => 0x7f, 0x6c => 0x50, 0x6d => 0x3c, 0x6e => 0x9f, 0x6f => 0xa8,
        0x70 => 0x51, 0x71 => 0xa3, 0x72 => 0x40, 0x73 => 0x8f, 0x74 => 0x92, 0x75 => 0x9d, 0x76 => 0x38, 0x77 => 0xf5,
        0x78 => 0xbc, 0x79 => 0xb6, 0x7a => 0xda, 0x7b => 0x21, 0x7c => 0x10, 0x7d => 0xff, 0x7e => 0xf3, 0x7f => 0xd2,
        0x80 => 0xcd, 0x81 => 0x0c, 0x82 => 0x13, 0x83 => 0xec, 0x84 => 0x5f, 0x85 => 0x97, 0x86 => 0x44, 0x87 => 0x17,
        0x88 => 0xc4, 0x89 => 0xa7, 0x8a => 0x7e, 0x8b => 0x3d, 0x8c => 0x64, 0x8d => 0x5d, 0x8e => 0x19, 0x8f => 0x73,
        0x90 => 0x60, 0x91 => 0x81, 0x92 => 0x4f, 0x93 => 0xdc, 0x94 => 0x22, 0x95 => 0x2a, 0x96 => 0x90, 0x97 => 0x88,
        0x98 => 0x46, 0x99 => 0xee, 0x9a => 0xb8, 0x9b => 0x14, 0x9c => 0xde, 0x9d => 0x5e, 0x9e => 0x0b, 0x9f => 0xdb,
        0xa0 => 0xe0, 0xa1 => 0x32, 0xa2 => 0x3a, 0xa3 => 0x0a, 0xa4 => 0x49, 0xa5 => 0x06, 0xa6 => 0x24, 0xa7 => 0x5c,
        0xa8 => 0xc2, 0xa9 => 0xd3, 0xaa => 0xac, 0xab => 0x62, 0xac => 0x91, 0xad => 0x95, 0xae => 0xe4, 0xaf => 0x79,
        0xb0 => 0xe7, 0xb1 => 0xc8, 0xb2 => 0x37, 0xb3 => 0x6d, 0xb4 => 0x8d, 0xb5 => 0xd5, 0xb6 => 0x4e, 0xb7 => 0xa9,
        0xb8 => 0x6c, 0xb9 => 0x56, 0xba => 0xf4, 0xbb => 0xea, 0xbc => 0x65, 0xbd => 0x7a, 0xbe => 0xae, 0xbf => 0x08,
        0xc0 => 0xba, 0xc1 => 0x78, 0xc2 => 0x25, 0xc3 => 0x2e, 0xc4 => 0x1c, 0xc5 => 0xa6, 0xc6 => 0xb4, 0xc7 => 0xc6,
        0xc8 => 0xe8, 0xc9 => 0xdd, 0xca => 0x74, 0xcb => 0x1f, 0xcc => 0x4b, 0xcd => 0xbd, 0xce => 0x8b, 0xcf => 0x8a,
        0xd0 => 0x70, 0xd1 => 0x3e, 0xd2 => 0xb5, 0xd3 => 0x66, 0xd4 => 0x48, 0xd5 => 0x03, 0xd6 => 0xf6, 0xd7 => 0x0e,
        0xd8 => 0x61, 0xd9 => 0x35, 0xda => 0x57, 0xdb => 0xb9, 0xdc => 0x86, 0xdd => 0xc1, 0xde => 0x1d, 0xdf => 0x9e,
        0xe0 => 0xe1, 0xe1 => 0xf8, 0xe2 => 0x98, 0xe3 => 0x11, 0xe4 => 0x69, 0xe5 => 0xd9, 0xe6 => 0x8e, 0xe7 => 0x94,
        0xe8 => 0x9b, 0xe9 => 0x1e, 0xea => 0x87, 0xeb => 0xe9, 0xec => 0xce, 0xed => 0x55, 0xee => 0x28, 0xef => 0xdf,
        0xf0 => 0x8c, 0xf1 => 0xa1, 0xf2 => 0x89, 0xf3 => 0x0d, 0xf4 => 0xbf, 0xf5 => 0xe6, 0xf6 => 0x42, 0xf7 => 0x68,
        0xf8 => 0x41, 0xf9 => 0x99, 0xfa => 0x2d, 0xfb => 0x0f, 0xfc => 0xb0, 0xfd => 0x54, 0xfe => 0xbb, _ => 0x16,
    }
}

/// The inverse S-box, which undoes [`sub_byte`].
pub open spec fn inv_sub_byte(b: u8) -> u8 {
    match b {
        0x00 => 0x52, 0x01 => 0x09, 0x02 => 0x6a, 0x03 => 0xd5, 0x04 => 0x30, 0x05 => 0x36, 0x06 => 0xa5, 0x07 => 0x38,
        0x08 => 0xbf, 0x09 => 0x40, 0x0a => 0xa3, 0x0b => 0x9e, 0x0c => 0x81, 0x0d => 0xf3, 0x0e => 0xd7, 0x0f => 0xfb,
        0x10 => 0x7c, 0x11 => 0xe3, 0x12 => 0x39, 0x13 => 0x82, 0x14 => 0x9b, 0x15 => 0x2f, 0x16 => 0xff, 0x17 => 0x87,
        0x18 => 0x34, 0x19 => 0x8e, 0x1a => 0x43, 0x1b => 0x44, 0x1c => 0xc4, 0x1d => 0xde, 0x1e => 0xe9, 0x1f => 0xcb,
        0x20 => 0x54, 0x21 => 0x7b, 0x22 => 0x94, 0x23 => 0x32, 0x24 => 0xa6, 0x25 => 0xc2, 0x26 => 0x23, 0x27 => 0x3d,
        0x28 => 0xee, 0x29 => 0x4c, 0x2a => 0x95, 0x2b => 0x0b, 0x2c => 0x42, 0x2d => 0xfa, 0x2e => 0xc3, 0x2f => 0x4e,
        0x30 => 0x08, 0x31 => 0x2e, 0x32 => 0xa1, 0x33 => 0x66, 0x34 => 0x28, 0x35 => 0xd9, 0x36 => 0x24, 0x37 => 0xb2,
        0x38 => 0x76, 0x39 => 0x5b, 0x3a => 0xa2, 0x3b => 0x49, 0x3c => 0x6d, 0x3d => 0x8b, 0x3e => 0xd1, 0x3f => 0x25,
        0x40 => 0x72, 0x41 => 0xf8, 0x42 => 0xf6, 0x43 => 0x64, 0x44 => 0x86, 0x45 => 0x68, 0x46 => 0x98, 0x47 => 0x16,
        0x48 => 0xd4, 0x49 => 0xa4, 0x4a => 0x5c, 0x4b => 0xcc, 0x4c => 0x5d, 0x4d => 0x65, 0x4e => 0xb6, 0x4f => 0x92,
        0x50 => 0x6c, 0x51 => 0x70, 0x52 => 0x48, 0x53 => 0x50, 0x54 => 0xfd, 0x55 => 0xed, 0x56 => 0xb9, 0x57 => 0xda,
        0x58 => 0x5e, 0x59 => 0x15, 0x5a => 0x46, 0x5b => 0x57, 0x5c => 0xa7, 0x5d => 0x8d, 0x5e => 0x9d, 0x5f => 0x84,
        0x60 => 0x90, 0x61 => 0xd8, 0x62 => 0xab, 0x63 => 0x00, 0x64 => 0x8c, 0x65 => 0xbc, 0x66 => 0xd3, 0x67 => 0x0a,
        0x68 => 0xf7, 0x69 => 0xe4, 0x6a => 0x58, 0x6b => 0x05, 0x6c => 0xb8, 0x6d => 0xb3, 0x6e => 0x45, 0x6f => 0x06,
        0x70 => 0xd0, 0x71 => 0x2c, 0x72 => 0x1e, 0x73 => 0x8f, 0x74 => 0xca, 0x75 => 0x3f, 0x76 => 0x0f, 0x77 => 0x02,
        0x78 => 0xc1, 0x79 => 0xaf, 0x7a => 0xbd, 0x7b => 0x03, 0x7c => 0x01, 0x7d => 0x13, 0x7e => 0x8a, 0x7f => 0x6b,
        0x80 => 0x3a, 0x81 => 0x91, 0x82 => 0x11, 0x83 => 0x41, 0x84 => 0x4f, 0x85 => 0x67, 0x86 => 0xdc, 0x87 => 0xea,
        0x88 => 0x97, 0x89 => 0xf2, 0x8a => 0xcf, 0x8b => 0xce, 0x8c => 0xf0, 0x8d => 0xb4, 0x8e => 0xe6, 0x8f => 0x73,
        0x90 => 0x96, 0x91 => 0xac, 0x92 => 0x74, 0x93 => 0x22, 0x94 => 0xe7, 0x95 => 0xad, 0x96 => 0x35, 0x97 => 0x85,
        0x98 => 0xe2, 0x99 => 0xf9, 0x9a => 0x37, 0x9b => 0xe8, 0x9c => 0x1c, 0x9d => 0x75, 0x9e => 0xdf, 0x9f => 0x6e,
        0xa0 => 0x47, 0xa1 => 0xf1, 0xa2 => 0x1a, 0xa3 => 0x71, 0xa4 => 0x1d, 0xa5 => 0x29, 0xa6 => 0xc5, 0xa7 => 0x89,
        0xa8 => 0x6f, 0xa9 => 0xb7, 0xaa => 0x62, 0xab => 0x0e, 0xac => 0xaa, 0xad => 0x18, 0xae => 0xbe, 0xaf => 0x1b,
        0xb0 => 0xfc, 0xb1 => 0x56, 0xb2 => 0x3e, 0xb3 => 0x4b, 0xb4 => 0xc6, 0xb5 => 0xd2, 0xb6 => 0x79, 0xb7 => 0x20,
        0xb8 => 0x9a, 0xb9 => 0xdb, 0xba => 0xc0, 0xbb => 0xfe, 0xbc => 0x78, 0xbd => 0xcd, 0xbe => 0x5a, 0xbf => 0xf4,
        0xc0 => 0x1f, 0xc1 => 0xdd, 0xc2 => 0xa8, 0xc3 => 0x33, 0xc4 => 0x88, 0xc5 => 0x07, 0xc6 => 0xc7, 0xc7 => 0x31,
        0xc8 => 0xb1, 0xc9 => 0x12, 0xca => 0x10, 0xcb => 0x59, 0xcc => 0x27, 0xcd => 0x80, 0xce => 0xec, 0xcf => 0x5f,
        0xd0 => 0x60, 0xd1 => 0x51, 0xd2 => 0x7f, 0xd3 => 0xa9, 0xd4 => 0x19, 0xd5 => 0xb5, 0xd6 => 0x4a, 0xd7 => 0x0d,
        0xd8 => 0x2d, 0xd9 => 0xe5, 0xda => 0x7a, 0xdb => 0x9f, 0xdc => 0x93, 0xdd => 0xc9, 0xde => 0x9c, 0xdf => 0xef,
        0xe0 => 0xa0, 0xe1 => 0xe0, 0xe2 => 0x3b, 0xe3 => 0x4d, 0xe4 => 0xae, 0xe5 => 0x2a, 0xe6 => 0xf5, 0xe7 => 0xb0,
        0xe8 => 0xc8, 0xe9 => 0xeb, 0xea => 0xbb, 0xeb => 0x3c, 0xec => 0x83, 0xed => 0x53, 0xee => 0x99, 0xef => 0x61,
        0xf0 => 0x17, 0xf1 => 0x2b, 0xf2 => 0x04, 0xf3 => 0x7e, 0xf4 => 0xba, 0xf5 => 0x77, 0xf6 => 0xd6, 0xf7 => 0x26,
        0xf8 => 0xe1, 0xf9 => 0x69, 0xfa => 0x14, 0xfb => 0x63, 0xfc => 0x55, 0xfd => 0x21, 0xfe => 0x0c, _ => 0x7d,
    }
}

/// The inverse S-box undoes the S-box, so the S-box is one-to-one.
proof fn lemma_inv_sub_byte(b: u8)
    ensures
        inv_sub_byte(sub_byte(b)) == b,
{
}

/// Multiplication by x (that is, by 2) in GF(2^8) modulo x^8 + x^4 + x^3 + x + 1.
pub open spec fn xtime(b: u8) -> u8 {
    if b < 0x80 {
        (2 * b) as u8
    } else {
        ((2 * b - 0x100) as u8) ^ 0x1b
    }
}

/// A byte of a mixed column: `2 a0 + 3 a1 + a2 + a3` in GF(2^8).
pub open spec fn mix_four(a0: u8, a1: u8, a2: u8, a3: u8) -> u8 {
    xtime(a0) ^ (xtime(a1) ^ a1) ^ a2 ^ a3
}

/// Multiplication by 4 in GF(2^8).
pub open spec fn times4(b: u8) -> u8 {
    xtime(xtime(b))
}

/// Multiplication by 8 in GF(2^8).
pub open spec fn times8(b: u8) -> u8 {
    xtime(xtime(xtime(b)))
}

/// A byte of an unmixed column: `14 m0 + 11 m1 + 13 m2 + 9 m3` in GF(2^8).
pub open spec fn unmix_four(m0: u8, m1: u8, m2: u8, m3: u8) -> u8 {
    (times8(m0) ^ times4(m0) ^ xtime(m0)) ^ (times8(m1) ^ xtime(m1) ^ m1) ^ (times8(m2) ^ times4(
        m2,
    ) ^ m2) ^ (times8(m3) ^ m3)
}

/// The first byte of a column after mixing and then unmixing it.
pub open spec fn mix_unmix(a0: u8, a1: u8, a2: u8, a3: u8) -> u8 {
    unmix_four(
        mix_four(a0, a1, a2, a3),
        mix_four(a1, a2, a3, a0),
        mix_four(a2, a3, a0, a1),
        mix_four(a3, a0, a1, a2),
    )
}

proof fn lemma_xtime_xor(a: u8, b: u8)
    ensures
        xtime(a ^ b) == xtime(a) ^ xtime(b),
{
    assert(xtime(a ^ b) == xtime(a) ^ xtime(b)) by (bit_vector);
}

proof fn lemma_mix_four_xor(a0: u8, a1: u8, a2: u8, a3: u8, b0: u8, b1: u8, b2: u8, b3: u8)
    ensures
        mix_four(a0 ^ b0, a1 ^ b1, a2 ^ b2, a3 ^ b3) == mix_four(a0, a1, a2, a3) ^ mix_four(
            b0,
            b1,
            b2,
            b3,
        ),
{
    lemma_xtime_xor(a0, b0);
    lemma_xtime_xor(a1, b1);
    let p = xtime(a0);
    let q = xtime(b0);
    let r = xtime(a1);
    let t = xtime(b1);
    assert((p ^ q) ^ ((r ^ t) ^ (a1 ^ b1)) ^ (a2 ^ b2) ^ (a3 ^ b3) == (p ^ (r ^ a1) ^ a2 ^ a3) ^ (
    q ^ (t ^ b1) ^ b2 ^ b3)) by (bit_vector);
}

proof fn lemma_unmix_four_xor(a0: u8, a1: u8, a2: u8, a3: u8, b0: u8, b1: u8, b2: u8, b3: u8)
    ensures
        unmix_four(a0 ^ b0, a1 ^ b1, a2 ^ b2, a3 ^ b3) == unmix_four(a0, a1, a2, a3) ^ unmix_four(
            b0,
            b1,
            b2,
            b3,
        ),
{
    lemma_times_xor(a0, b0);
    lemma_times_xor(a1, b1);
    lemma_times_xor(a2, b2);
    lemma_times_xor(a3, b3);
    let (e0, f0, g0, h0) = (times8(a0), times4(a0), xtime(a0), a0);
    let (e1, f1, g1, h1) = (times8(a1), times4(a1), xtime(a1), a1);
    let (e2, f2, g2, h2) = (times8(a2), times4(a2), xtime(a2), a2);
    let (e3, f3, g3, h3) = (times8(a3), times4(a3), xtime(a3), a3);
    let (i0, j0, k0, l0) = (times8(b0), times4(b0), xtime(b0), b0);
    let (i1, j1, k1, l1) = (times8(b1), times4(b1), xtime(b1), b1);
    let (i2, j2, k2, l2) = (times8(b2), times4(b2), xtime(b2), b2);
    let (i3, j3, k3, l3) = (times8(b3), times4(b3), xtime(b3), b3);
    assert(((e0 ^ i0) ^ (f0 ^ j0) ^ (g0 ^ k0)) ^ ((e1 ^ i1) ^ (g1 ^ k1) ^ (h1 ^ l1)) ^ ((e2 ^ i2) ^ (
    f2 ^ j2) ^ (h2 ^ l2)) ^ ((e3 ^ i3) ^ (h3 ^ l3)) == ((e0 ^ f0 ^ g0) ^ (e1 ^ g1 ^ h1) ^ (e2 ^ f2
        ^ h2) ^ (e3 ^ h3)) ^ ((i0 ^ j0 ^ k0) ^ (i1 ^ k1 ^ l1) ^ (i2 ^ j2 ^ l2) ^ (i3 ^ l3)))
        by (bit_vector);
}

proof fn lemma_times_xor(a: u8, b: u8)
    ensures
        xtime(a ^ b) == xtime(a) ^ xtime(b),
        times4(a ^ b) == times4(a) ^ times4(b),
        times8(a ^ b) == times8(a) ^ times8(b),
{
    lemma_xtime_xor(a, b);
    lemma_xtime_xor(xtime(a), xtime(b));
    lemma_xtime_xor(times4(a), times4(b));
}

/// Unmixing a mixed column gives back its first byte (and, by rotation,
/// every byte): the column mixing is one-to-one.
proof fn lemma_unmix_column(a0: u8, a1: u8, a2: u8, a3: u8)
    ensures
        mix_unmix(a0, a1, a2, a3) == a0,
{
    assert(mix_unmix(a0, 0u8, 0u8, 0u8) == a0) by (bit_vector);
    assert(mix_unmix(0u8, a1, 0u8, 0u8) == 0) by (bit_vector);
    assert(mix_unmix(0u8, 0u8, a2, 0u8) == 0) by (bit_vector);
    assert(mix_unmix(0u8, 0u8, 0u8, a3) == 0) by (bit_vector);
    assert(a0 ^ 0u8 == a0 && 0u8 ^ a1 == a1 && 0u8 ^ a2 == a2 && 0u8 ^ a3 == a3 && a1 ^ 0u8
        == a1 && a2 ^ 0u8 == a2 && 0u8 ^ 0u8 == 0u8) by (bit_vector);
    lemma_mix_unmix_xor(a0, 0u8, 0u8, 0u8, 0u8, a1, 0u8, 0u8);
    assert(mix_unmix(a0, a1, 0u8, 0u8) == a0);
    lemma_mix_unmix_xor(0u8, 0u8, a2, 0u8, 0u8, 0u8, 0u8, a3);
    assert(mix_unmix(0u8, 0u8, a2, a3) == 0u8);
    lemma_mix_unmix_xor(a0, a1, 0u8, 0u8, 0u8, 0u8, a2, a3);
}

proof fn lemma_mix_unmix_xor(a0: u8, a1: u8, a2: u8, a3: u8, b0: u8, b1: u8, b2: u8, b3: u8)
    ensures
        mix_unmix(a0 ^ b0, a1 ^ b1, a2 ^ b2, a3 ^ b3) == mix_unmix(a0, a1, a2, a3) ^ mix_unmix(
            b0,
            b1,
            b2,
            b3,
        ),
{
    lemma_mix_four_xor(a0, a1, a2, a3, b0, b1, b2, b3);
    lemma_mix_four_xor(a1, a2, a3, a0, b1, b2, b3, b0);
    lemma_mix_four_xor(a2, a3, a0, a1, b2, b3, b0, b1);
    lemma_mix_four_xor(a3, a0, a1, a2, b3, b0, b1, b2);
    lemma_unmix_four_xor(
        mix_four(a0, a1, a2, a3),
        mix_four(a1, a2, a3, a0),
        mix_four(a2, a3, a0, a1),
        mix_four(a3, a0, a1, a2),
        mix_four(b0, b1, b2, b3),
        mix_four(b1, b2, b3, b0),
        mix_four(b2, b3, b0, b1),
        mix_four(b3, b0, b1, b2),
    );
}

pub open spec fn sub_bytes(s: Seq<u8>) -> Seq<u8> {
    Seq::new(16, |i: int| sub_byte(s[i]))
}

/// Row `r` is rotated left by `r` columns.
pub open spec fn shift_rows(s: Seq<u8>) -> Seq<u8> {
    Seq::new(16, |i: int| s[(i % 4) + 4 * (((i / 4) + (i % 4)) % 4)])
}

/// Byte `i` of a column after mixing: `2 a0 + 3 a1 + a2 + a3` with the
/// column's bytes taken from row `i % 4` onwards.
pub open spec fn mix_byte(s: Seq<u8>, i: int) -> u8 {
    let c = i / 4;
    let r = i % 4;
    let a0 = s[4 * c + r];
    let a1 = s[4 * c + (r + 1) % 4];
    let a2 = s[4 * c + (r + 2) % 4];
    let a3 = s[4 * c + (r + 3) % 4];
    xtime(a0) ^ (xtime(a1) ^ a1) ^ a2 ^ a3
}

pub open spec fn mix_columns(s: Seq<u8>) -> Seq<u8> {
    Seq::new(16, |i: int| mix_byte(s, i))
}

pub open spec fn add_round_key(s: Seq<u8>, k: Seq<u8>) -> Seq<u8> {
    Seq::new(16, |i: int| s[i] ^ k[i])
}

/// The round constant of key-schedule word `4 * j`.
pub open spec fn rcon(j: int) -> u8 {
    seq![0x00u8, 0x01, 0x02, 0x04, 0x08, 0x10, 0x20, 0x40, 0x80, 0x1b, 0x36][j]
}

/// The first `n` words (4 bytes each) of the AES-128 key schedule of `key`.
pub open spec fn key_schedule(key: Seq<u8>, n: nat) -> Seq<u8>
    decreases n,
{
    if n <= 4 {
        key.subrange(0, 4 * n as int)
    } else {
        let prev = key_schedule(key, (n - 1) as nat);
        let i = n - 1;
        let last = prev.subrange(4 * (i - 1), 4 * i);
        let temp = if i % 4 == 0 {
            seq![
                sub_byte(last[1]) ^ rcon(i / 4),
                sub_byte(last[2]),
                sub_byte(last[3]),
                sub_byte(last[0]),
            ]
        } else {
            last
        };
        prev + Seq::new(4, |j: int| prev[4 * (i - 4) + j] ^ temp[j])
    }
}

pub open spec fn round_key(schedule: Seq<u8>, r: int) -> Seq<u8> {
    schedule.subrange(16 * r, 16 * r + 16)
}

/// Rounds `r` to 10 of the cipher; the last round has no column mixing.
pub open spec fn aes_rounds(s: Seq<u8>, schedule: Seq<u8>, r: nat) -> Seq<u8>
    decreases 10 - r,
{
    if r >= 10 {
        add_round_key(shift_rows(sub_bytes(s)), round_key(schedule, 10))
    } else {
        aes_rounds(
            add_round_key(mix_columns(shift_rows(sub_bytes(s))), round_key(schedule, r as int)),
            schedule,
            r + 1,
        )
    }
}

/// The AES-128 encryption of the 16-byte `block` under the 16-byte `key`.
pub closed spec fn aes128_encrypt(key: Seq<u8>, block: Seq<u8>) -> Seq<u8> {
    let schedule = key_schedule(key, 44);
    aes_rounds(add_round_key(block, round_key(schedule, 0)), schedule, 1)
}

proof fn lemma_aes_rounds_len(s: Seq<u8>, schedule: Seq<u8>, r: nat)
    ensures
        aes_rounds(s, schedule, r).len() == 16,
    decreases 10 - r,
{
    if r < 10 {
        lemma_aes_rounds_len(
            add_round_key(mix_columns(shift_rows(sub_bytes(s))), round_key(schedule, r as int)),
            schedule,
            r + 1,
        );
    }
}

/// A cipher block is 16 bytes long.
pub proof fn lemma_aes128_block_len(key: Seq<u8>, block: Seq<u8>)
    ensures
        #[trigger] aes128_encrypt(key, block).len() == 16,
{
    let schedule = key_schedule(key, 44);
    lemma_aes_rounds_len(add_round_key(block, round_key(schedule, 0)), schedule, 1);
}

proof fn lemma_add_round_key_injective(s: Seq<u8>, t: Seq<u8>, k: Seq<u8>)
    requires
        s.len() == 16,
        t.len() == 16,
        add_round_key(s, k) == add_round_key(t, k),
    ensures
        s == t,
{
    assert forall|i: int| 0 <= i < 16 implies s[i] == t[i] by {
        let (x, y, z) = (s[i], t[i], k[i]);
        assert(add_round_key(s, k)[i] == add_round_key(t, k)[i]);
        assert(add_round_key(s, k)[i] == x ^ z);
        assert(add_round_key(t, k)[i] == y ^ z);
        assert(x == y) by (bit_vector)
            requires
                x ^ z == y ^ z,
        ;
    }
    assert(s =~= t);
}

proof fn lemma_sub_bytes_injective(s: Seq<u8>, t: Seq<u8>)
    requires
        s.len() == 16,
        t.len() == 16,
        sub_bytes(s) == sub_bytes(t),
    ensures
        s == t,
{
    assert forall|i: int| 0 <= i < 16 implies s[i] == t[i] by {
        assert(sub_bytes(s)[i] == sub_bytes(t)[i]);
        assert(sub_bytes(s)[i] == sub_byte(s[i]));
        assert(sub_byte(s[i]) == sub_byte(t[i]));
        lemma_inv_sub_byte(s[i]);
        lemma_inv_sub_byte(t[i]);
    }
    assert(s =~= t);
}

proof fn lemma_shift_rows_injective(s: Seq<u8>, t: Seq<u8>)
    requires
        s.len() == 16,
        t.len() == 16,
        shift_rows(s) == shift_rows(t),
    ensures
        s == t,
{
    assert forall|j: int| 0 <= j < 16 implies s[j] == t[j] by {
        let i = (j % 4) + 4 * ((j / 4 - j % 4 + 4) % 4);
        assert(0 <= i < 16);
        assert((i % 4) + 4 * (((i / 4) + (i % 4)) % 4) == j);
        assert(shift_rows(s)[i] == shift_rows(t)[i]);
        assert(shift_rows(s)[i] == s[j]);
        assert(shift_rows(t)[i] == t[j]);
    }
    assert(s =~= t);
}

proof fn lemma_mix_columns_injective(s: Seq<u8>, t: Seq<u8>)
    requires
        s.len() == 16,
        t.len() == 16,
        mix_columns(s) == mix_columns(t),
    ensures
        s == t,
{
    assert forall|i: int| 0 <= i < 16 implies s[i] == t[i] by {
        let c = i / 4;
        let r = i % 4;
        let (r1, r2, r3) = ((r + 1) % 4, (r + 2) % 4, (r + 3) % 4);
        assert(i == 4 * c + r);
        assert(mix_columns(s)[4 * c + r] == mix_columns(t)[4 * c + r]);
        assert(mix_columns(s)[4 * c + r1] == mix_columns(t)[4 * c + r1]);
        assert(mix_columns(s)[4 * c + r2] == mix_columns(t)[4 * c + r2]);
        assert(mix_columns(s)[4 * c + r3] == mix_columns(t)[4 * c + r3]);
        assert((r1 + 1) % 4 == r2 && (r1 + 2) % 4 == r3 && (r1 + 3) % 4 == r);
        assert((r2 + 1) % 4 == r3 && (r2 + 2) % 4 == r && (r2 + 3) % 4 == r1);
        assert((r3 + 1) % 4 == r && (r3 + 2) % 4 == r1 && (r3 + 3) % 4 == r2);
        assert((4 * c + r1) / 4 == c && (4 * c + r1) % 4 == r1);
        assert((4 * c + r2) / 4 == c && (4 * c + r2) % 4 == r2);
        assert((4 * c + r3) / 4 == c && (4 * c + r3) % 4 == r3);
        assert((4 * c + r) / 4 == c && (4 * c + r) % 4 == r);
        let (s0, s1, s2, s3) = (s[4 * c + r], s[4 * c + r1], s[4 * c + r2], s[4 * c + r3]);
        let (t0, t1, t2, t3) = (t[4 * c + r], t[4 * c + r1], t[4 * c + r2], t[4 * c + r3]);
        assert(mix_columns(s)[4 * c + r] == mix_four(s0, s1, s2, s3));
        assert(mix_columns(s)[4 * c + r1] == mix_four(s1, s2, s3, s0));
        assert(mix_columns(s)[4 * c + r2] == mix_four(s2, s3, s0, s1));
        assert(mix_columns(s)[4 * c + r3] == mix_four(s3, s0, s1, s2));
        assert(mix_columns(t)[4 * c + r] == mix_four(t0, t1, t2, t3));
        assert(mix_columns(t)[4 * c + r1] == mix_four(t1, t2, t3, t0));
        assert(mix_columns(t)[4 * c + r2] == mix_four(t2, t3, t0, t1));
        assert(mix_columns(t)[4 * c + r3] == mix_four(t3, t0, t1, t2));
        lemma_unmix_column(s[4 * c + r], s[4 * c + r1], s[4 * c + r2], s[4 * c + r3]);
        lemma_unmix_column(t[4 * c + r], t[4 * c + r1], t[4 * c + r2], t[4 * c + r3]);
    }
    assert(s =~= t);
}

proof fn lemma_aes_rounds_injective(s: Seq<u8>, t: Seq<u8>, schedule: Seq<u8>, r: nat)
    requires
        s.len() == 16,
        t.len() == 16,
        aes_rounds(s, schedule, r) == aes_rounds(t, schedule, r),
    ensures
        s == t,
    decreases 10 - r,
{
    if r >= 10 {
        lemma_add_round_key_injective(
            shift_rows(sub_bytes(s)),
            shift_rows(sub_bytes(t)),
            round_key(schedule, 10),
        );
    } else {
        let k = round_key(schedule, r as int);
        lemma_aes_rounds_injective(
            add_round_key(mix_columns(shift_rows(sub_bytes(s))), k),
            add_round_key(mix_columns(shift_rows(sub_bytes(t))), k),
            schedule,
            r + 1,
        );
        lemma_add_round_key_injective(
            mix_columns(shift_rows(sub_bytes(s))),
            mix_columns(shift_rows(sub_bytes(t))),
            k,
        );
        lemma_mix_columns_injective(shift_rows(sub_bytes(s)), shift_rows(sub_bytes(t)));
    }
    lemma_shift_rows_injective(sub_bytes(s), sub_bytes(t));
    lemma_sub_bytes_injective(s, t);
}

/// Under one key the cipher is one-to-one on blocks: two different blocks
/// never encrypt to the same block.
pub proof fn lemma_aes128_injective(key: Seq<u8>, a: Seq<u8>, b: Seq<u8>)
    requires
        a.len() == 16,
        b.len() == 16,
        a != b,
    ensures
        aes128_encrypt(key, a) != aes128_encrypt(key, b),
{
    let schedule = key_schedule(key, 44);
    let k0 = round_key(schedule, 0);
    if aes128_encrypt(key, a) == aes128_encrypt(key, b) {
        lemma_aes_rounds_injective(add_round_key(a, k0), add_round_key(b, k0), schedule, 1);
        lemma_add_round_key_injective(a, b, k0);
    }
}

} // verus!
