//! The AES-CCM core shared by both packet engines: CTR-mode keystream
//! encryption of the payload, the CBC-MAC authentication tag over the
//! encoded associated data and the payload, tag masking with the first
//! keystream block, and a constant-time tag comparison.
//!
//! Everything is expressed over the AES-128 block function that every
//! [`Encrypt`] implementation computes.
use crate::aes::{aes128_encrypt, lemma_aes128_block_len, lemma_aes128_injective};
use crate::bytes::{be32, be40, lemma_be32_roundtrip};
use vstd::prelude::*;

verus! {

/// The largest value of the 5-byte packet counter.
pub const MAX_5_BYTES: u64 = 0xFF_FF_FF_FF_FF;

/// A 5-byte counter nonce to safeguard transactions against replay attacks.
pub(crate) struct Nonce {
    pub(crate) counter: u64,
}

impl Nonce {
    /// Increments the counter and returns it as 5 big-endian bytes; fails,
    /// leaving the counter as it was, once it has reached `0xFF_FF_FF_FF_FF`.
    pub(crate) fn inc(&mut self) -> (r: Option<[u8; 5]>)
        ensures
            match r {
                Some(raw) => old(self).counter < MAX_5_BYTES
                    && final(self).counter == old(self).counter + 1
                    && raw@ == be40(final(self).counter as int),
                None => old(self).counter >= MAX_5_BYTES
                    && final(self).counter == old(self).counter,
            },
    {
        if self.counter >= MAX_5_BYTES {
            return None;
        }
        self.counter = self.counter + 1;
        let c = self.counter;
        let result: [u8; 5] = [
            ((c / 0x1_0000_0000) % 0x100) as u8,
            ((c / 0x100_0000) % 0x100) as u8,
            ((c / 0x1_0000) % 0x100) as u8,
            ((c / 0x100) % 0x100) as u8,
            (c % 0x100) as u8,
        ];
        assert(result@ =~= be40(c as int));
        Some(result)
    }

    /// Sets the counter. Used when synchronizing with a peer.
    pub(crate) fn set(&mut self, new_counter: u64)
        ensures
            final(self).counter == new_counter,
    {
        self.counter = new_counter;
    }
}

/// A HAL trait to allow different MCUs with AES hardware acceleration to hook
/// onto the AES-CCM implementation.
///
/// Implementors promise that `encrypt` writes into `out_block` the AES-128
/// encryption of `in_block` under `key`, leaves `in_block` as it was, and
/// records the request, in order, in the ghost log of calls.
pub trait Encrypt {
    /// The blocks the peripheral has been asked to encrypt so far, in order,
    /// each with the key it was asked to use: `(key, block)`.
    ///
    /// A verified implementation defines its own log; the empty default lets
    /// an implementation in ordinary Rust leave it out. Code generic over the
    /// driver never sees the default.
    closed spec fn calls(&self) -> Seq<(Seq<u8>, Seq<u8>)> {
        Seq::empty()
    }

    /// Encrypts the given 16-byte buffer with the given key using the MCU's
    /// AES hardware peripheral.
    fn encrypt(&mut self, out_block: &mut [u8; 16], in_block: &mut [u8; 16], key: [u8; 16])
        ensures
            final(out_block)@ == aes128_encrypt(key@, old(in_block)@),
            final(in_block)@ == old(in_block)@,
            final(self).calls() == old(self).calls().push((key@, old(in_block)@)),
    ;
}

/// Bytewise XOR of two 16-byte blocks.
pub open spec fn xor_block(a: Seq<u8>, b: Seq<u8>) -> Seq<u8> {
    Seq::new(16, |i: int| a[i] ^ b[i])
}

/// `n` zero bytes.
pub open spec fn zeros(n: nat) -> Seq<u8> {
    Seq::new(n, |i: int| 0u8)
}

/// `data` followed by the fewest zero bytes that make its length a multiple of 16.
pub open spec fn zero_pad(data: Seq<u8>) -> Seq<u8> {
    if data.len() % 16 == 0 {
        data
    } else {
        data + zeros((16 - data.len() % 16) as nat)
    }
}

/// The 16-byte block number `i` (0-based) of `blocks`.
pub open spec fn block_at(blocks: Seq<u8>, i: int) -> Seq<u8> {
    blocks.subrange(16 * i, 16 * i + 16)
}

/// The counter block: the first 12 bytes of `a_block` followed by the
/// big-endian 32-bit counter `ctr`.
pub open spec fn counter_block(a_block: Seq<u8>, ctr: int) -> Seq<u8> {
    a_block.subrange(0, 12) + be32(ctr)
}

/// The number of 16-byte keystream blocks that a 32-bit block counter
/// starting at 1 can address.
pub open spec fn max_ctr_blocks() -> int {
    0xFFFF_FFFF
}

/// Keystream block `i` (0-based): the encryption of the counter block with counter `i + 1`.
pub open spec fn keystream(key: Seq<u8>, a_block: Seq<u8>, i: int) -> Seq<u8> {
    aes128_encrypt(key, counter_block(a_block, i + 1))
}

/// A counter block keeps the first 12 bytes of the block it is derived
/// from and carries the counter big-endian in its last four bytes; so the
/// keystream blocks of one packet, numbered from 1, all differ from each
/// other and from the counter-zero block that masks the tag.
pub proof fn lemma_counter_blocks_distinct(a_block: Seq<u8>, i: int, j: int)
    requires
        a_block.len() == 16,
        a_block[12] == 0 && a_block[13] == 0 && a_block[14] == 0 && a_block[15] == 0,
        0 <= i < max_ctr_blocks(),
        0 <= j < max_ctr_blocks(),
    ensures
        counter_block(a_block, i + 1).len() == 16,
        counter_block(a_block, i + 1).subrange(0, 12) == a_block.subrange(0, 12),
        ({
            let c = counter_block(a_block, i + 1);
            c[12] * 0x100_0000 + c[13] * 0x1_0000 + c[14] * 0x100 + c[15] == i + 1
        }),
        counter_block(a_block, i + 1) != a_block,
        i != j ==> counter_block(a_block, i + 1) != counter_block(a_block, j + 1),
{
    let ci = counter_block(a_block, i + 1);
    let cj = counter_block(a_block, j + 1);
    lemma_be32_roundtrip(i + 1);
    lemma_be32_roundtrip(j + 1);
    assert(ci.subrange(0, 12) =~= a_block.subrange(0, 12));
    assert(ci[12] == be32(i + 1)[0] && ci[13] == be32(i + 1)[1] && ci[14] == be32(i + 1)[2]
        && ci[15] == be32(i + 1)[3]);
    assert(cj[12] == be32(j + 1)[0] && cj[13] == be32(j + 1)[1] && cj[14] == be32(j + 1)[2]
        && cj[15] == be32(j + 1)[3]);
    if ci == a_block {
        assert(ci[12] == 0 && ci[13] == 0 && ci[14] == 0 && ci[15] == 0);
    }
    if i != j && ci == cj {
        assert(ci[12] == cj[12] && ci[13] == cj[13] && ci[14] == cj[14] && ci[15] == cj[15]);
    }
}

/// The number of keystream blocks the CTR transform of `len` bytes asks
/// for: one per full 16-byte block and one more for the rest (even when it
/// is empty), unless the 32-bit block counter runs out first.
pub open spec fn ctr_call_count(len: int) -> int {
    if len / 16 < max_ctr_blocks() {
        len / 16 + 1
    } else {
        max_ctr_blocks()
    }
}

/// The first `n` encryption requests of the CTR transform: counter blocks
/// 1, 2, ..., `n` derived from `a_block`, all under `key`.
pub open spec fn ctr_calls(key: Seq<u8>, a_block: Seq<u8>, n: int) -> Seq<(Seq<u8>, Seq<u8>)> {
    Seq::new(n as nat, |i: int| (key, counter_block(a_block, i + 1)))
}

/// CTR-mode transform of `data`: byte `j` is XORed with byte `j % 16` of
/// keystream block `j / 16`, for every block whose counter fits in 32 bits;
/// bytes past that are left as they are.
pub open spec fn ctr_xor(key: Seq<u8>, a_block: Seq<u8>, data: Seq<u8>) -> Seq<u8> {
    Seq::new(
        data.len(),
        |j: int|
            if j / 16 < max_ctr_blocks() {
                data[j] ^ keystream(key, a_block, j / 16)[j % 16]
            } else {
                data[j]
            },
    )
}

/// CBC chaining from `x` over the first `n` blocks of `blocks`:
/// `X_0 = x` and `X_(i+1) = E(X_i xor B_i)`.
pub open spec fn cbc_chain(key: Seq<u8>, x: Seq<u8>, blocks: Seq<u8>, n: nat) -> Seq<u8>
    decreases n,
{
    if n == 0 {
        x
    } else {
        aes128_encrypt(
            key,
            xor_block(cbc_chain(key, x, blocks, (n - 1) as nat), block_at(blocks, n - 1)),
        )
    }
}

/// The raw (unmasked) CCM authentication tag of `data` (the CBC-MAC of
/// RFC 3610): `X_1 = E(B_0)` for the first block `b0`, then
/// `X_(i+1) = E(X_i xor B_i)` over the encoded associated-data blocks
/// `header_blocks` followed by the blocks of `data` padded with zero bytes
/// to a multiple of 16; the tag is the last `X`.
pub open spec fn cbc_tag(
    key: Seq<u8>,
    b0: Seq<u8>,
    header_blocks: Seq<u8>,
    data: Seq<u8>,
) -> Seq<u8> {
    let m = header_blocks + zero_pad(data);
    cbc_chain(key, aes128_encrypt(key, b0), m, m.len() / 16)
}

/// The encryption requests the CBC-MAC makes: `B_0` first, then
/// `X_i xor B_i` for every block of the encoded associated data and the
/// zero-padded payload, all under `key`.
pub open spec fn cbc_calls(
    key: Seq<u8>,
    b0: Seq<u8>,
    header_blocks: Seq<u8>,
    data: Seq<u8>,
) -> Seq<(Seq<u8>, Seq<u8>)> {
    let m = header_blocks + zero_pad(data);
    seq![(key, b0)] + cbc_step_calls(key, aes128_encrypt(key, b0), m, (m.len() / 16) as int)
}

/// The requests of the first `n` chaining steps from `x` over `blocks`.
pub open spec fn cbc_step_calls(key: Seq<u8>, x: Seq<u8>, blocks: Seq<u8>, n: int) -> Seq<
    (Seq<u8>, Seq<u8>),
> {
    Seq::new(
        n as nat,
        |i: int| (key, xor_block(cbc_chain(key, x, blocks, i as nat), block_at(blocks, i))),
    )
}

/// The masked tag sent on the wire: the raw tag XORed with the encryption
/// of the counter-zero block `a0`.
pub open spec fn masked_tag(key: Seq<u8>, a0: Seq<u8>, raw_tag: Seq<u8>) -> Seq<u8> {
    xor_block(raw_tag, aes128_encrypt(key, a0))
}

/// Every step of the CBC chain is one cipher block long.
proof fn lemma_cbc_chain_len(key: Seq<u8>, x: Seq<u8>, blocks: Seq<u8>, n: nat)
    requires
        x.len() == 16,
    ensures
        cbc_chain(key, x, blocks, n).len() == 16,
{
    if n > 0 {
        lemma_aes128_block_len(
            key,
            xor_block(cbc_chain(key, x, blocks, (n - 1) as nat), block_at(blocks, n - 1)),
        );
    }
}

/// A raw tag is one cipher block long.
pub proof fn lemma_cbc_tag_len(key: Seq<u8>, b0: Seq<u8>, header_blocks: Seq<u8>, data: Seq<u8>)
    ensures
        cbc_tag(key, b0, header_blocks, data).len() == 16,
{
    let m = header_blocks + zero_pad(data);
    lemma_aes128_block_len(key, b0);
    lemma_cbc_chain_len(key, aes128_encrypt(key, b0), m, m.len() / 16);
}

/// XORing the same block into two different blocks keeps them different.
proof fn lemma_xor_block_differs(a: Seq<u8>, b: Seq<u8>, c: Seq<u8>)
    requires
        a.len() == 16,
        b.len() == 16,
        a != b,
    ensures
        xor_block(a, c) != xor_block(b, c),
        xor_block(a, c).len() == 16,
        xor_block(b, c).len() == 16,
{
    assert(!(a =~= b));
    let k = choose|k: int| 0 <= k < 16 && a[k] != b[k];
    let (x, y, z) = (a[k], b[k], c[k]);
    assert(x ^ z != y ^ z) by (bit_vector)
        requires
            x != y,
    ;
    assert(xor_block(a, c)[k] != xor_block(b, c)[k]);
}

/// Chains over block sequences that agree on their first `n` blocks agree
/// after `n` steps.
proof fn lemma_cbc_chain_same_prefix(key: Seq<u8>, x: Seq<u8>, m1: Seq<u8>, m2: Seq<u8>, n: nat)
    requires
        forall|i: int| 0 <= i < n ==> block_at(m1, i) == block_at(m2, i),
    ensures
        cbc_chain(key, x, m1, n) == cbc_chain(key, x, m2, n),
    decreases n,
{
    if n > 0 {
        lemma_cbc_chain_same_prefix(key, x, m1, m2, (n - 1) as nat);
    }
}

/// Chains over block sequences that differ in block `j` and in no other
/// of their first `n` blocks differ at every step after `j`.
proof fn lemma_cbc_chain_diverges(
    key: Seq<u8>,
    x: Seq<u8>,
    m1: Seq<u8>,
    m2: Seq<u8>,
    j: int,
    n: nat,
)
    requires
        x.len() == 16,
        0 <= j < n,
        block_at(m1, j).len() == 16,
        block_at(m2, j).len() == 16,
        block_at(m1, j) != block_at(m2, j),
        forall|i: int| 0 <= i < n && i != j ==> block_at(m1, i) == block_at(m2, i),
    ensures
        cbc_chain(key, x, m1, n) != cbc_chain(key, x, m2, n),
    decreases n,
{
    let prev1 = cbc_chain(key, x, m1, (n - 1) as nat);
    let prev2 = cbc_chain(key, x, m2, (n - 1) as nat);
    lemma_cbc_chain_len(key, x, m1, (n - 1) as nat);
    lemma_cbc_chain_len(key, x, m2, (n - 1) as nat);
    if n == j + 1 {
        lemma_cbc_chain_same_prefix(key, x, m1, m2, (n - 1) as nat);
        lemma_xor_block_differs(block_at(m1, j), block_at(m2, j), prev1);
        assert(xor_block(prev1, block_at(m1, j)) =~= xor_block(block_at(m1, j), prev1)) by {
            assert forall|i: int| 0 <= i < 16 implies xor_block(prev1, block_at(m1, j))[i]
                == xor_block(block_at(m1, j), prev1)[i] by {
                let (u, w) = (prev1[i], block_at(m1, j)[i]);
                assert(u ^ w == w ^ u) by (bit_vector);
            }
        }
        assert(xor_block(prev1, block_at(m2, j)) =~= xor_block(block_at(m2, j), prev1)) by {
            assert forall|i: int| 0 <= i < 16 implies xor_block(prev1, block_at(m2, j))[i]
                == xor_block(block_at(m2, j), prev1)[i] by {
                let (u, w) = (prev1[i], block_at(m2, j)[i]);
                assert(u ^ w == w ^ u) by (bit_vector);
            }
        }
        lemma_aes128_injective(
            key,
            xor_block(prev1, block_at(m1, j)),
            xor_block(prev2, block_at(m2, j)),
        );
    } else {
        lemma_cbc_chain_diverges(key, x, m1, m2, j, (n - 1) as nat);
        lemma_xor_block_differs(prev1, prev2, block_at(m1, n - 1));
        lemma_aes128_injective(
            key,
            xor_block(prev1, block_at(m1, n - 1)),
            xor_block(prev2, block_at(m2, n - 1)),
        );
    }
}

/// Two messages of the same length, a multiple of 16, that differ in
/// exactly one byte have different CBC chains over all their blocks.
pub proof fn lemma_cbc_chain_one_byte(key: Seq<u8>, x: Seq<u8>, m1: Seq<u8>, m2: Seq<u8>, q: int)
    requires
        x.len() == 16,
        m1.len() == m2.len(),
        m1.len() % 16 == 0,
        0 <= q < m1.len(),
        m1[q] != m2[q],
        forall|i: int| 0 <= i < m1.len() && i != q ==> m1[i] == m2[i],
    ensures
        cbc_chain(key, x, m1, m1.len() / 16) != cbc_chain(key, x, m2, m2.len() / 16),
{
    let n = m1.len() / 16;
    let j = q / 16;
    assert(16 * n == m1.len());
    assert(0 <= j < n);
    assert forall|i: int| 0 <= i < n && i != j implies block_at(m1, i) == block_at(m2, i) by {
        assert forall|k: int| 0 <= k < 16 implies block_at(m1, i)[k] == block_at(m2, i)[k] by {
            assert(16 * i + k != q);
        }
        assert(block_at(m1, i) =~= block_at(m2, i));
    }
    assert(block_at(m1, j)[q - 16 * j] != block_at(m2, j)[q - 16 * j]);
    lemma_cbc_chain_diverges(key, x, m1, m2, j, n);
}

/// Zero padding leaves a whole number of blocks.
pub proof fn lemma_zero_pad_len(data: Seq<u8>)
    ensures
        zero_pad(data).len() % 16 == 0,
        zero_pad(data).len() >= data.len(),
        forall|i: int| 0 <= i < data.len() ==> zero_pad(data)[i] == data[i],
        forall|i: int| data.len() <= i < zero_pad(data).len() ==> zero_pad(data)[i] == 0,
{
}

/// Applying the CTR transform twice with the same key and counter block gives back the data.
pub proof fn lemma_ctr_xor_involution(key: Seq<u8>, a_block: Seq<u8>, data: Seq<u8>)
    ensures
        ctr_xor(key, a_block, ctr_xor(key, a_block, data)) == data,
        ctr_xor(key, a_block, data).len() == data.len(),
{
    let once = ctr_xor(key, a_block, data);
    let twice = ctr_xor(key, a_block, once);
    assert forall|j: int| 0 <= j < data.len() implies twice[j] == data[j] by {
        if j / 16 < max_ctr_blocks() {
            let k = keystream(key, a_block, j / 16)[j % 16];
            let d = data[j];
            assert((d ^ k) ^ k == d) by (bit_vector);
        }
    }
    assert(twice =~= data);
}

/// Masking a tag twice with the same block gives back the tag.
pub proof fn lemma_xor_block_involution(a: Seq<u8>, b: Seq<u8>)
    requires
        a.len() == 16,
    ensures
        xor_block(xor_block(a, b), b) == a,
{
    assert forall|i: int| 0 <= i < 16 implies xor_block(xor_block(a, b), b)[i] == a[i] by {
        let x = a[i];
        let y = b[i];
        assert((x ^ y) ^ y == x) by (bit_vector);
    }
    assert(xor_block(xor_block(a, b), b) =~= a);
}

/// XORs the 16-byte authentication tag with the first keystream block,
/// the encryption of `a_block` (whose counter bytes are zero).
pub(crate) fn xor_tag<E: Encrypt>(
    aes: &mut E,
    tag: &mut [u8; 16],
    a_block: &mut [u8; 16],
    key: [u8; 16],
)
    ensures
        final(tag)@ == xor_block(old(tag)@, aes128_encrypt(key@, old(a_block)@)),
        final(a_block)@ == old(a_block)@,
        final(aes).calls() == old(aes).calls().push((key@, old(a_block)@)),
{
    let mut key_stream_buf = [0u8; 16];
    aes.encrypt(&mut key_stream_buf, a_block, key);
    let ghost tag0 = tag@;
    let mut i: usize = 0;
    while i < 16
        invariant
            0 <= i <= 16,
            tag@.len() == 16,
            key_stream_buf@ == aes128_encrypt(key@, a_block@),
            forall|j: int| 0 <= j < i ==> tag@[j] == tag0[j] ^ key_stream_buf@[j],
            forall|j: int| i <= j < 16 ==> tag@[j] == tag0[j],
        decreases 16 - i,
    {
        tag[i] = tag[i] ^ key_stream_buf[i];
        i = i + 1;
    }
    assert(tag@ =~= xor_block(tag0, aes128_encrypt(key@, a_block@)));
}

/// Writes the big-endian counter `ctr` into bytes 12..16 of the counter block.
fn set_counter(a_block: &mut [u8; 16], ctr: u32)
    ensures
        final(a_block)@ == counter_block(old(a_block)@, ctr as int),
{
    a_block[12] = ((ctr / 0x100_0000) % 0x100) as u8;
    a_block[13] = ((ctr / 0x1_0000) % 0x100) as u8;
    a_block[14] = ((ctr / 0x100) % 0x100) as u8;
    a_block[15] = (ctr % 0x100) as u8;
    assert(a_block@ =~= counter_block(old(a_block)@, ctr as int));
}

/// XORs `data[start..start + len]` in place with the CTR keystream derived
/// from `a_block` (counters 1, 2, ... in bytes 12..16).
///
/// Returns `false`, with the blocks whose counter fitted already
/// transformed, when the block counter would exceed `u32::MAX`.
pub(crate) fn xor_payload<E: Encrypt>(
    aes: &mut E,
    data: &mut [u8],
    start: usize,
    len: usize,
    a_block: &mut [u8; 16],
    key: [u8; 16],
) -> (ok: bool)
    requires
        start + len <= old(data)@.len(),
    ensures
        final(data)@ == old(data)@.subrange(0, start as int) + ctr_xor(
            key@,
            old(a_block)@,
            old(data)@.subrange(start as int, start + len),
        ) + old(data)@.subrange(start + len, old(data)@.len() as int),
        ok == (len / 16 < max_ctr_blocks()),
        final(a_block)@.subrange(0, 12) == old(a_block)@.subrange(0, 12),
        final(aes).calls() == old(aes).calls() + ctr_calls(
            key@,
            old(a_block)@,
            ctr_call_count(len as int),
        ),
{
    let ghost d0 = data@;
    let ghost a0 = a_block@;
    let ghost c0 = aes.calls();
    let ghost plain = d0.subrange(start as int, start + len);
    let ghost expect = ctr_xor(key@, a0, plain);
    let total = data.len();
    let n = len / 16;
    let mut counter: u32 = 0;
    let mut key_stream_buf = [0u8; 16];
    let mut k: usize = 0;
    while k < n
        invariant
            n == len / 16,
            0 <= k <= n,
            counter == k,
            start + len <= d0.len(),
            total == d0.len(),
            data@.len() == d0.len(),
            a_block@.subrange(0, 12) == a0.subrange(0, 12),
            plain == d0.subrange(start as int, start + len),
            expect == ctr_xor(key@, a0, plain),
            aes.calls() == c0 + ctr_calls(key@, a0, k as int),
            forall|j: int|
                0 <= j < data@.len() ==> #[trigger] data@[j] == if start <= j < start + 16 * k {
                    expect[j - start]
                } else {
                    d0[j]
                },
        ensures
            k == n || counter == u32::MAX,
            k <= n,
            counter == k,
            data@.len() == d0.len(),
            a_block@.subrange(0, 12) == a0.subrange(0, 12),
            aes.calls() == c0 + ctr_calls(key@, a0, k as int),
            forall|j: int|
                0 <= j < data@.len() ==> #[trigger] data@[j] == if start <= j < start + 16 * k {
                    expect[j - start]
                } else {
                    d0[j]
                },
        decreases n - k,
    {
        if counter == u32::MAX {
            break ;
        }
        counter = counter + 1;
        set_counter(a_block, counter);
        assert(counter_block(a_block@, counter as int) == counter_block(a0, counter as int));
        assert(a_block@ =~= counter_block(a0, k + 1));
        aes.encrypt(&mut key_stream_buf, a_block, key);
        assert(key_stream_buf@ == keystream(key@, a0, k as int));
        assert(aes.calls() =~= c0 + ctr_calls(key@, a0, k + 1));
        let base = start + 16 * k;
        let mut i: usize = 0;
        while i < 16
            invariant
                0 <= i <= 16,
                base == start + 16 * k,
                k < n,
                n == len / 16,
                counter == k + 1,
                start + len <= d0.len(),
                total == d0.len(),
                data@.len() == d0.len(),
                plain == d0.subrange(start as int, start + len),
                expect == ctr_xor(key@, a0, plain),
                key_stream_buf@ == keystream(key@, a0, k as int),
                aes.calls() == c0 + ctr_calls(key@, a0, k + 1),
                forall|j: int|
                    0 <= j < data@.len() ==> #[trigger] data@[j] == if start <= j < base + i {
                        expect[j - start]
                    } else {
                        d0[j]
                    },
            decreases 16 - i,
        {
            let idx = base + i;
            proof {
                assert((idx - start) / 16 == k as int);
                assert((idx - start) % 16 == i as int);
                assert(((idx - start) / 16) < max_ctr_blocks());
            }
            data[idx] = data[idx] ^ key_stream_buf[i];
            i = i + 1;
        }
        k = k + 1;
    }
    if k < n || counter == u32::MAX {
        proof {
            assert(16 * k == 16 * max_ctr_blocks());
            assert forall|j: int| 0 <= j < data@.len() implies #[trigger] data@[j] == (d0.subrange(
                0,
                start as int,
            ) + expect + d0.subrange(start + len, d0.len() as int))[j] by {
                if start <= j < start + len {
                    if j >= start + 16 * k {
                        assert((j - start) / 16 >= max_ctr_blocks());
                    }
                }
            }
            assert(data@ =~= d0.subrange(0, start as int) + expect + d0.subrange(
                start + len,
                d0.len() as int,
            ));
        }
        return false;
    }
    counter = counter + 1;
    set_counter(a_block, counter);
    assert(a_block@ =~= counter_block(a0, n + 1));
    aes.encrypt(&mut key_stream_buf, a_block, key);
    assert(key_stream_buf@ == keystream(key@, a0, n as int));
    assert(aes.calls() =~= c0 + ctr_calls(key@, a0, n + 1));
    assert(16 * n <= len);
    let base = start + 16 * n;
    let end = start + len;
    let mut i: usize = base;
    while i < end
        invariant
            base == start + 16 * n,
            end == start + len,
            base <= i <= end,
            n == len / 16,
            n < max_ctr_blocks(),
            end <= d0.len(),
            total == d0.len(),
            data@.len() == d0.len(),
            plain == d0.subrange(start as int, start + len),
            expect == ctr_xor(key@, a0, plain),
            key_stream_buf@ == keystream(key@, a0, n as int),
            aes.calls() == c0 + ctr_calls(key@, a0, n + 1),
            forall|j: int|
                0 <= j < data@.len() ==> #[trigger] data@[j] == if start <= j < i {
                    expect[j - start]
                } else {
                    d0[j]
                },
        decreases end - i,
    {
        proof {
            assert((i - start) / 16 == n as int);
            assert((i - start) % 16 == i - base);
        }
        data[i] = data[i] ^ key_stream_buf[i - base];
        i = i + 1;
    }
    assert(data@ =~= d0.subrange(0, start as int) + expect + d0.subrange(
        start + len,
        d0.len() as int,
    ));
    true
}

/// One CBC step: XORs `src[off..off + n]`, padded with zero bytes to a
/// full block, into `x` and encrypts the result.
fn absorb<E: Encrypt>(
    aes: &mut E,
    x: &mut [u8; 16],
    src: &[u8],
    off: usize,
    n: usize,
    key: [u8; 16],
)
    requires
        off + n <= src@.len(),
        n <= 16,
    ensures
        final(x)@ == aes128_encrypt(
            key@,
            xor_block(old(x)@, src@.subrange(off as int, off + n) + zeros((16 - n) as nat)),
        ),
        final(aes).calls() == old(aes).calls().push(
            (key@, xor_block(old(x)@, src@.subrange(off as int, off + n) + zeros((16 - n) as nat))),
        ),
{
    let ghost x0 = x@;
    let ghost blk = src@.subrange(off as int, off + n) + zeros((16 - n) as nat);
    let total = src.len();
    let mut buf: [u8; 16] = *x;
    let mut i: usize = 0;
    while i < n
        invariant
            0 <= i <= n,
            total == src@.len(),
            n <= 16,
            off + n <= src@.len(),
            x0.len() == 16,
            buf@.len() == 16,
            forall|j: int| 0 <= j < i ==> buf@[j] == x0[j] ^ src@[off + j],
            forall|j: int| i <= j < 16 ==> buf@[j] == x0[j],
        decreases n - i,
    {
        buf[i] = buf[i] ^ src[off + i];
        i = i + 1;
    }
    assert forall|j: int| 0 <= j < 16 implies buf@[j] == x0[j] ^ blk[j] by {
        if j >= n {
            let v = x0[j];
            assert(v ^ 0u8 == v) by (bit_vector);
        }
    }
    assert(buf@ =~= xor_block(x0, blk));
    aes.encrypt(x, &mut buf, key);
}

/// Computes the raw CCM authentication tag of `data[start..start + len]`
/// from the first block `b_block` and the encoded associated-data blocks.
pub(crate) fn cbc_mac<E: Encrypt>(
    aes: &mut E,
    b_block: &mut [u8; 16],
    header_blocks: &[u8],
    data: &[u8],
    start: usize,
    len: usize,
    key: [u8; 16],
) -> (tag: [u8; 16])
    requires
        start + len <= data@.len(),
        header_blocks@.len() % 16 == 0,
    ensures
        tag@ == cbc_tag(
            key@,
            old(b_block)@,
            header_blocks@,
            data@.subrange(start as int, start + len),
        ),
        final(b_block)@ == old(b_block)@,
        final(aes).calls() == old(aes).calls() + cbc_calls(
            key@,
            old(b_block)@,
            header_blocks@,
            data@.subrange(start as int, start + len),
        ),
{
    let ghost payload = data@.subrange(start as int, start + len);
    let ghost m = header_blocks@ + zero_pad(payload);
    let ghost c0 = aes.calls();
    let ghost b0 = b_block@;
    let mut x = [0u8; 16];
    aes.encrypt(&mut x, b_block, key);
    let ghost x0 = x@;
    let ghost c1 = aes.calls();
    assert(c1 == c0 + seq![(key@, b_block@)]);
    let dl = data.len();
    let hl = header_blocks.len();
    let hn = hl / 16;
    let n = len / 16;
    let rem = len % 16;
    assert(hl == 16 * hn);
    assert(len == 16 * n + rem);
    assert(m.len() == hl + 16 * n + if rem == 0 { 0int } else { 16int });
    let mut k: usize = 0;
    while k < hn
        invariant
            0 <= k <= hn,
            hl == header_blocks@.len(),
            hl == 16 * hn,
            m == header_blocks@ + zero_pad(payload),
            m.len() >= hl,
            x@ == cbc_chain(key@, x0, m, k as nat),
            aes.calls() == c1 + cbc_step_calls(key@, x0, m, k as int),
        decreases hn - k,
    {
        assert(block_at(m, k as int) =~= header_blocks@.subrange(16 * k, 16 * k + 16) + zeros(
            0,
        ));
        absorb(aes, &mut x, header_blocks, 16 * k, 16, key);
        assert(aes.calls() =~= c1 + cbc_step_calls(key@, x0, m, k + 1));
        k = k + 1;
    }
    let mut c: usize = 0;
    while c < n
        invariant
            0 <= c <= n,
            n == len / 16,
            len == 16 * n + rem,
            start + len <= data@.len(),
            dl == data@.len(),
            hl == header_blocks@.len(),
            hl == 16 * hn,
            payload == data@.subrange(start as int, start + len),
            m == header_blocks@ + zero_pad(payload),
            m.len() == hl + 16 * n + if rem == 0 { 0int } else { 16int },
            x@ == cbc_chain(key@, x0, m, (hn + c) as nat),
            aes.calls() == c1 + cbc_step_calls(key@, x0, m, hn + c),
        decreases n - c,
    {
        assert(block_at(m, hn + c) =~= data@.subrange(
            start + 16 * c,
            start + 16 * c + 16,
        ) + zeros(0));
        absorb(aes, &mut x, data, start + 16 * c, 16, key);
        assert(aes.calls() =~= c1 + cbc_step_calls(key@, x0, m, hn + c + 1));
        c = c + 1;
    }
    if rem > 0 {
        assert(block_at(m, hn + n) =~= data@.subrange(start + 16 * n, start + len) + zeros(
            (16 - rem) as nat,
        ));
        absorb(aes, &mut x, data, start + 16 * n, rem, key);
        assert(aes.calls() =~= c1 + cbc_step_calls(key@, x0, m, hn + n + 1));
        assert(m.len() / 16 == hn + n + 1);
    } else {
        assert(m.len() / 16 == hn + n);
    }
    assert(aes.calls() =~= c0 + cbc_calls(key@, b0, header_blocks@, payload));
    x
}

/// Constant-time comparison of two tags: every byte pair is examined
/// whatever the earlier ones held.
pub(crate) fn is_tag_match_const_time(tag_a: &[u8; 16], tag_b: &[u8; 16]) -> (r: bool)
    ensures
        r == (tag_a@ == tag_b@),
{
    let mut acc: u8 = 0;
    let mut i: usize = 0;
    while i < 16
        invariant
            0 <= i <= 16,
            tag_a@.len() == 16,
            tag_b@.len() == 16,
            (acc == 0) == (forall|j: int| 0 <= j < i ==> tag_a@[j] == tag_b@[j]),
        decreases 16 - i,
    {
        let x = tag_a[i];
        let y = tag_b[i];
        let old_acc = acc;
        acc = acc | (x ^ y);
        assert((old_acc | (x ^ y)) == 0 <==> (old_acc == 0 && x == y)) by (bit_vector);
        i = i + 1;
    }
    if acc == 0 {
        assert(tag_a@ =~= tag_b@);
        true
    } else {
        false
    }
}

} // verus!
