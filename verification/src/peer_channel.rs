//! # Peer-bound AES-CCM packet channel
//!
//! Packet framing, MAC address binding, nonce tracking, epoch key rotation
//! and AES-CCM encryption/decryption over a hardware AES peripheral.
//!
//! Wire layout of a packet:
//!
//! ```text
//! | MAC (6) | flags (1) | nonce (5) | epoch (4) | ciphertext (N) | tag (16) |
//!  \_____________ header (16 bytes) _________/
//! ```
use crate::bytes::{
    be16, bytes_eq, be32, be32_value, be40, be40_value, lemma_be32_roundtrip,
    lemma_be32_value_roundtrip,
    lemma_be40_roundtrip, lemma_be40_value_roundtrip, u16_to_be, u32_from_be, u32_to_be,
    u40_from_be,
};
pub use crate::ccm::Encrypt;
use crate::aes::{aes128_encrypt, lemma_aes128_block_len};
use crate::ccm::{
    Nonce, MAX_5_BYTES, cbc_tag, ctr_xor, lemma_ctr_xor_involution, lemma_xor_block_involution,
    lemma_cbc_tag_len, masked_tag, max_ctr_blocks, xor_block, zeros, keystream, zero_pad,
    lemma_zero_pad_len, lemma_cbc_chain_one_byte, cbc_calls, ctr_calls, ctr_call_count,
};
use crate::key_manager::{epoch_key, next_epoch, prev_epoch};
pub use crate::key_manager::KeyManager;
use core::ops::Deref;
use vstd::prelude::*;
use vstd::slice::slice_subrange;

verus! {

/// Size of the packet header: MAC, flags, nonce and epoch.
pub const HEADER_SIZE: usize = 16;

/// Size of the authentication tag.
pub const TAG_SIZE: usize = 16;

const FLAGS_IDX: usize = 6;

const NONCE_OFFSET: usize = 7;

const EPOCH_OFFSET: usize = 12;

const MAC_OFFSET: usize = 0;

const PAYLOAD_OFFSET: usize = 16;

/// Size of a resync frame: header and tag around the empty payload.
const RESYNC_FRAME_SIZE: usize = 32;

/// Flags value of a resync control packet.
pub const RESYNC_FLAG: u8 = 0b1000_0000;

/// The two high flag bits are reserved for control packets.
pub const RESERVED_FLAG_BITS: u8 = 0b1100_0000;

/// Errors that can occur during packet construction, serialization, or decryption.
#[derive(Debug, Clone, PartialEq, Eq)]
pub enum Error {
    /// The packet does not match the expected structure or is too small.
    InvalidFormat,
    /// The destination mac address on the packet is not yours
    InvalidMac,
    /// The frame buffer's capacity was exceeded while writing header or tag bytes.
    BufferOverflow,
    /// The 5-byte AES counter exceeded its maximum value ($2^{40} - 1$).
    AESCounterOverflow,
    /// Received a packet with a duplicate or older nonce within the current
    /// epoch (replay attack protection). Not raised for packets from other epochs.
    Duplicate,
    /// If reserved bits are overridden with custom flags
    ReservedBitOverride,
    /// Cryptographic verification failed (tampered payload or invalid key).
    Authentication,
    /// The serialized payload does not fit the frame.
    PostcardError,
    /// If serialized payload exceeds u16::MAX in size
    LengthPrefixOverflow,
    /// The incoming packet's epoch is older than this channel's key window can
    /// still decode (the peer has fallen behind, e.g. after being offline).
    /// The caller should send the enclosed resync frame back to the peer.
    PeerDesynced(Frame),
    /// The epoch counter cannot advance any further; a new root key is needed.
    EpochExhaustion,
    /// Returned when a peer sends a resync packet to sync your epochs.
    SuccessfulResync,
}

// ---------------------------------------------------------------------------
// Packet layout
// ---------------------------------------------------------------------------

/// The 16-byte header (and associated data) of a packet.
pub open spec fn header_bytes(mac: Seq<u8>, flags: u8, raw_nonce: Seq<u8>, epoch: u32) -> Seq<u8> {
    mac + seq![flags] + raw_nonce + be32(epoch as int)
}

/// The counter-zero block A0 of a packet: flags byte 1, MAC, nonce, zero counter.
///
/// This is the layout of this protocol's wire format, which both peers
/// must share; it is not the layout RFC 3610 prescribes for this block.
pub open spec fn a_block_of(mac: Seq<u8>, raw_nonce: Seq<u8>) -> Seq<u8> {
    seq![1u8] + mac + raw_nonce + seq![0u8, 0u8, 0u8, 0u8]
}

/// The first authentication block B0 of a packet: MAC, flags byte, nonce,
/// the 16-bit payload length and two zero bytes.
///
/// This is the layout of this protocol's wire format, which both peers
/// must share; it is not the layout RFC 3610 prescribes for this block.
pub open spec fn b_block_of(mac: Seq<u8>, raw_nonce: Seq<u8>, payload_len: u16) -> Seq<u8> {
    mac + seq![0b0_1_111_001u8] + raw_nonce + be16(payload_len as int) + seq![0u8, 0u8]
}

/// The encoded associated data: the header's 16-bit length, the 16-byte
/// header, and zero bytes up to two full blocks.
pub open spec fn header_block_of(header: Seq<u8>) -> Seq<u8> {
    be16(16) + header + zeros(14)
}

/// The requests that sealing `payload` under `key` makes of the AES driver,
/// in order: the CBC-MAC blocks, the counter-zero block that masks the tag,
/// and the counter blocks of the payload's keystream.
pub open spec fn sealing_calls(
    key: Seq<u8>,
    mac: Seq<u8>,
    flags: u8,
    raw_nonce: Seq<u8>,
    epoch: u32,
    payload: Seq<u8>,
) -> Seq<(Seq<u8>, Seq<u8>)> {
    let a0 = a_block_of(mac, raw_nonce);
    cbc_calls(
        key,
        b_block_of(mac, raw_nonce, payload.len() as u16),
        header_block_of(header_bytes(mac, flags, raw_nonce, epoch)),
        payload,
    ) + seq![(key, a0)] + ctr_calls(key, a0, ctr_call_count(payload.len() as int))
}

/// The packet carrying `payload` sealed under `key`: header, CTR ciphertext, masked tag.
pub open spec fn sealed_packet(
    key: Seq<u8>,
    mac: Seq<u8>,
    flags: u8,
    raw_nonce: Seq<u8>,
    epoch: u32,
    payload: Seq<u8>,
) -> Seq<u8> {
    let header = header_bytes(mac, flags, raw_nonce, epoch);
    let a0 = a_block_of(mac, raw_nonce);
    let raw_tag = cbc_tag(
        key,
        b_block_of(mac, raw_nonce, payload.len() as u16),
        header_block_of(header),
        payload,
    );
    header + ctr_xor(key, a0, payload) + masked_tag(key, a0, raw_tag)
}

pub open spec fn packet_mac(b: Seq<u8>) -> Seq<u8> {
    b.subrange(0, 6)
}

pub open spec fn packet_flags(b: Seq<u8>) -> u8 {
    b[6]
}

pub open spec fn packet_raw_nonce(b: Seq<u8>) -> Seq<u8> {
    b.subrange(7, 12)
}

pub open spec fn packet_nonce(b: Seq<u8>) -> u64 {
    be40_value(b.subrange(7, 12)) as u64
}

pub open spec fn packet_epoch(b: Seq<u8>) -> u32 {
    be32_value(b.subrange(12, 16)) as u32
}

pub open spec fn packet_ciphertext(b: Seq<u8>) -> Seq<u8> {
    b.subrange(16, b.len() - 16)
}

pub open spec fn packet_tag(b: Seq<u8>) -> Seq<u8> {
    b.subrange(b.len() - 16, b.len() as int)
}

/// The plaintext obtained by running the CTR transform over the packet's ciphertext.
pub open spec fn opened_payload(key: Seq<u8>, b: Seq<u8>) -> Seq<u8> {
    ctr_xor(key, a_block_of(packet_mac(b), packet_raw_nonce(b)), packet_ciphertext(b))
}

/// Whether the packet's tag authenticates its header and opened payload under `key`.
pub open spec fn tag_verifies(key: Seq<u8>, b: Seq<u8>) -> bool {
    let plain = opened_payload(key, b);
    cbc_tag(
        key,
        b_block_of(packet_mac(b), packet_raw_nonce(b), packet_ciphertext(b).len() as u16),
        header_block_of(b.subrange(0, 16)),
        plain,
    ) == xor_block(
        packet_tag(b),
        aes128_encrypt(key, a_block_of(packet_mac(b), packet_raw_nonce(b))),
    )
}

/// The requests that opening the packet under `key` makes of the AES
/// driver, in order: the counter-zero block that unmasks the tag, the
/// counter blocks of the keystream and, unless the block counter runs out,
/// the CBC-MAC blocks over the header and the opened payload.
pub open spec fn opening_calls(key: Seq<u8>, b: Seq<u8>) -> Seq<(Seq<u8>, Seq<u8>)> {
    let a0 = a_block_of(packet_mac(b), packet_raw_nonce(b));
    let n = packet_ciphertext(b).len();
    let keystream_calls = seq![(key, a0)] + ctr_calls(key, a0, ctr_call_count(n as int));
    if counter_overflows(b) {
        keystream_calls
    } else {
        keystream_calls + cbc_calls(
            key,
            b_block_of(packet_mac(b), packet_raw_nonce(b), n as u16),
            header_block_of(b.subrange(0, 16)),
            opened_payload(key, b),
        )
    }
}

/// Whether decrypting the packet would run the 32-bit block counter out.
pub open spec fn counter_overflows(b: Seq<u8>) -> bool {
    packet_ciphertext(b).len() / 16 >= max_ctr_blocks()
}

/// The packet with its ciphertext replaced in place by the opened payload.
pub open spec fn opened_in_place(key: Seq<u8>, b: Seq<u8>) -> Seq<u8> {
    b.subrange(0, 16) + opened_payload(key, b) + packet_tag(b)
}

// ---------------------------------------------------------------------------
// Frame
// ---------------------------------------------------------------------------

/// A serialized packet buffer of fixed capacity.
#[derive(Debug, Clone, PartialEq, Eq)]
pub struct Frame {
    inner: Vec<u8>,
    capacity: usize,
}

impl View for Frame {
    type V = Seq<u8>;

    /// The bytes written so far.
    closed spec fn view(&self) -> Seq<u8> {
        self.inner@
    }
}

impl Frame {
    /// The number of bytes the frame can hold.
    pub closed spec fn spec_capacity(&self) -> nat {
        self.capacity as nat
    }

    /// An empty frame that can hold `capacity` bytes.
    pub fn empty(capacity: usize) -> (r: Self)
        ensures
            r@ == Seq::<u8>::empty(),
            r.spec_capacity() == capacity,
    {
        Frame { inner: Vec::new(), capacity }
    }

    /// A frame holding the packet header.
    fn new(mac: [u8; 6], flags: u8, raw_nonce: [u8; 5], epoch: [u8; 4], capacity: usize) -> (r:
        Result<Self, Error>)
        ensures
            match r {
                Ok(f) => capacity >= 16 && f@ == mac@ + seq![flags] + raw_nonce@ + epoch@
                    && f.spec_capacity() == capacity,
                Err(e) => capacity < 16 && e == Error::BufferOverflow,
            },
    {
        let mut frame = Self::empty(capacity);
        frame.extend_from_slice(mac.as_slice())?;
        frame.push(flags)?;
        frame.extend_from_slice(raw_nonce.as_slice())?;
        frame.extend_from_slice(epoch.as_slice())?;
        assert(frame@ =~= mac@ + seq![flags] + raw_nonce@ + epoch@);
        Ok(frame)
    }

    /// Appends the serialized payload; fails as the serializer does when
    /// the rest of the buffer cannot hold it.
    fn write_payload(&mut self, payload: &[u8]) -> (r: Result<(), Error>)
        ensures
            final(self).spec_capacity() == old(self).spec_capacity(),
            match r {
                Ok(()) => old(self)@.len() + payload@.len() <= old(self).spec_capacity()
                    && final(self)@ == old(self)@ + payload@,
                Err(e) => old(self)@.len() + payload@.len() > old(self).spec_capacity() && e
                    == Error::PostcardError && final(self)@ == old(self)@,
            },
    {
        match self.extend_from_slice(payload) {
            Ok(()) => Ok(()),
            Err(_) => Err(Error::PostcardError),
        }
    }

    /// Appends the authentication tag.
    fn finalize(&mut self, tag: [u8; 16]) -> (r: Result<(), Error>)
        ensures
            final(self).spec_capacity() == old(self).spec_capacity(),
            match r {
                Ok(()) => old(self)@.len() + 16 <= old(self).spec_capacity() && final(self)@
                    == old(self)@ + tag@,
                Err(e) => old(self)@.len() + 16 > old(self).spec_capacity() && e
                    == Error::BufferOverflow && final(self)@ == old(self)@,
            },
    {
        self.extend_from_slice(tag.as_slice())
    }

    /// The bytes of the packet.
    pub fn bytes(&self) -> (r: &[u8])
        ensures
            r@ == self@,
    {
        self.inner.as_slice()
    }

    /// The bytes of the packet, mutably.
    pub fn bytes_mut(&mut self) -> (r: &mut [u8])
        ensures
            r@ == old(self)@,
            final(self)@ == final(r)@,
            final(self).spec_capacity() == old(self).spec_capacity(),
    {
        self.inner.as_mut_slice()
    }

    fn push(&mut self, byte: u8) -> (r: Result<(), Error>)
        ensures
            final(self).spec_capacity() == old(self).spec_capacity(),
            match r {
                Ok(()) => old(self)@.len() < old(self).spec_capacity()
                    && final(self)@ == old(self)@.push(byte),
                Err(e) => old(self)@.len() >= old(self).spec_capacity() && e
                    == Error::BufferOverflow && final(self)@ == old(self)@,
            },
    {
        if self.inner.len() >= self.capacity {
            return Err(Error::BufferOverflow);
        }
        self.inner.push(byte);
        Ok(())
    }

    fn extend_from_slice(&mut self, src: &[u8]) -> (r: Result<(), Error>)
        ensures
            final(self).spec_capacity() == old(self).spec_capacity(),
            match r {
                Ok(()) => old(self)@.len() + src@.len() <= old(self).spec_capacity()
                    && final(self)@ == old(self)@ + src@,
                Err(e) => old(self)@.len() + src@.len() > old(self).spec_capacity() && e
                    == Error::BufferOverflow && final(self)@ == old(self)@,
            },
    {
        let fits = match src.len().checked_add(self.inner.len()) {
            Some(total) => total <= self.capacity,
            None => false,
        };
        if !fits {
            return Err(Error::BufferOverflow);
        }
        let ghost start = self.inner@;
        let ghost cap = self.capacity;
        let mut i: usize = 0;
        while i < src.len()
            invariant
                0 <= i <= src@.len(),
                self.capacity == cap,
                start.len() + src@.len() <= cap,
                self.inner@ == start + src@.subrange(0, i as int),
            decreases src@.len() - i,
        {
            self.inner.push(src[i]);
            i = i + 1;
            assert(self.inner@ =~= start + src@.subrange(0, i as int));
        }
        assert(src@.subrange(0, src@.len() as int) =~= src@);
        Ok(())
    }
}

// ---------------------------------------------------------------------------
// Packet data, addresses, nonces
// ---------------------------------------------------------------------------

/// Represents the raw data fields to be packaged securely into an encrypted frame.
#[derive(Debug, PartialEq, Eq, Copy, Clone)]
pub struct PacketData<T> {
    /// Protocol or routing control flags.
    pub flags: u8,
    /// The payload: its serialized bytes when sealed, its decoded value when opened.
    pub payload: T,
}

impl<T> PacketData<T> {
    /// Instantiates a new packet data structure ready for processing.
    /// The two high bits of the flags are reserved and must be clear.
    pub fn new(flags: u8, payload: T) -> (r: Result<Self, Error>)
        ensures
            match r {
                Ok(p) => flags & RESERVED_FLAG_BITS == 0 && p.flags == flags && p.payload
                    == payload,
                Err(e) => flags & RESERVED_FLAG_BITS != 0 && e == Error::ReservedBitOverride,
            },
    {
        if (flags & RESERVED_FLAG_BITS) != 0 {
            return Err(Error::ReservedBitOverride);
        };
        Ok(Self { flags, payload })
    }
}

impl PacketData<Vec<u8>> {
    /// A resync control packet: the resync flag and an empty payload.
    fn new_resync() -> (r: Self)
        ensures
            r.flags == RESYNC_FLAG,
            r.payload@ == Seq::<u8>::empty(),
    {
        Self { flags: RESYNC_FLAG, payload: Vec::new() }
    }
}

/// A standard 6-byte media access control (MAC) address.
#[derive(Debug)]
pub struct MacAddr {
    inner: [u8; 6],
}

impl View for MacAddr {
    type V = Seq<u8>;

    closed spec fn view(&self) -> Seq<u8> {
        self.inner@
    }
}

impl MacAddr {
    /// Creates a new MAC address from individual octets.
    pub fn new(f1: u8, f2: u8, f3: u8, f4: u8, f5: u8, f6: u8) -> (r: Self)
        ensures
            r@ == seq![f1, f2, f3, f4, f5, f6],
    {
        let r = Self { inner: [f1, f2, f3, f4, f5, f6] };
        assert(r@ =~= seq![f1, f2, f3, f4, f5, f6]);
        r
    }

    /// The address `EE:EE:EE:EE:EE:EE`, used for the peer in test setups.
    pub fn peer() -> (r: Self)
        ensures
            r@ == seq![0xEEu8, 0xEE, 0xEE, 0xEE, 0xEE, 0xEE],
    {
        let r = Self { inner: [0xEE; 6] };
        assert(r@ =~= seq![0xEEu8, 0xEE, 0xEE, 0xEE, 0xEE, 0xEE]);
        r
    }

    /// The six octets.
    pub fn octets(&self) -> (r: [u8; 6])
        ensures
            r@ == self@,
    {
        self.inner
    }

    /// An address is six octets long.
    pub proof fn lemma_octet_count(&self)
        ensures
            self@.len() == 6,
    {
    }
}

impl Default for MacAddr {
    /// Defaults to the broadcast hardware address (`FF:FF:FF:FF:FF:FF`).
    fn default() -> (r: Self)
        ensures
            r@ == seq![0xFFu8, 0xFF, 0xFF, 0xFF, 0xFF, 0xFF],
    {
        let r = MacAddr { inner: [0xFF, 0xFF, 0xFF, 0xFF, 0xFF, 0xFF] };
        assert(r@ =~= seq![0xFFu8, 0xFF, 0xFF, 0xFF, 0xFF, 0xFF]);
        r
    }
}

impl From<[u8; 6]> for MacAddr {
    fn from(value: [u8; 6]) -> (r: Self)
        ensures
            r@ == value@,
    {
        Self { inner: value }
    }
}

impl vstd::std_specs::convert::FromSpecImpl<[u8; 6]> for MacAddr {
    open spec fn obeys_from_spec() -> bool {
        true
    }

    closed spec fn from_spec(v: [u8; 6]) -> Self {
        MacAddr { inner: v }
    }
}

impl Deref for MacAddr {
    type Target = [u8; 6];

    fn deref(&self) -> (r: &[u8; 6])
        ensures
            r@ == self@,
    {
        &self.inner
    }
}

// ---------------------------------------------------------------------------
// Views on received packets
// ---------------------------------------------------------------------------

/// A read-only view of a received packet's header fields.
pub struct PacketView<'a> {
    bytes: &'a [u8],
}

impl<'a> View for PacketView<'a> {
    type V = Seq<u8>;

    closed spec fn view(&self) -> Seq<u8> {
        self.bytes@
    }
}

impl<'a> PacketView<'a> {
    #[verifier::type_invariant]
    closed spec fn holds_header_and_tag(self) -> bool {
        self.bytes@.len() >= HEADER_SIZE + TAG_SIZE
    }

    /// Creates a view of a packet, which must hold at least a header and a tag.
    pub fn new(bytes: &'a [u8]) -> (r: Result<Self, Error>)
        ensures
            match r {
                Ok(v) => bytes@.len() >= 32 && v@ == bytes@,
                Err(e) => bytes@.len() < 32 && e == Error::InvalidFormat,
            },
    {
        Self::try_from(bytes)
    }

    /// Returns the 6-byte MAC address from the packet.
    pub fn mac(&self) -> (r: [u8; 6])
        ensures
            r@ == packet_mac(self@),
    {
        proof {
            use_type_invariant(self);
        }
        let b = self.bytes;
        let r: [u8; 6] = [
            b[MAC_OFFSET],
            b[MAC_OFFSET + 1],
            b[MAC_OFFSET + 2],
            b[MAC_OFFSET + 3],
            b[MAC_OFFSET + 4],
            b[MAC_OFFSET + 5],
        ];
        assert(r@ =~= packet_mac(self@));
        r
    }

    /// Returns the packet flags byte.
    pub fn flags(&self) -> (r: u8)
        ensures
            r == packet_flags(self@),
    {
        proof {
            use_type_invariant(self);
        }
        self.bytes[FLAGS_IDX]
    }

    /// Returns the raw 5-byte nonce field.
    pub fn raw_nonce(&self) -> (r: [u8; 5])
        ensures
            r@ == packet_raw_nonce(self@),
    {
        proof {
            use_type_invariant(self);
        }
        let b = self.bytes;
        let r: [u8; 5] = [
            b[NONCE_OFFSET],
            b[NONCE_OFFSET + 1],
            b[NONCE_OFFSET + 2],
            b[NONCE_OFFSET + 3],
            b[NONCE_OFFSET + 4],
        ];
        assert(r@ =~= packet_raw_nonce(self@));
        r
    }

    /// Returns the 4-byte epoch field.
    pub fn epoch(&self) -> (r: u32)
        ensures
            r == packet_epoch(self@),
    {
        proof {
            use_type_invariant(self);
        }
        u32_from_be(self.bytes, EPOCH_OFFSET)
    }

    /// Returns the raw nonce as a 64-bit integer.
    pub fn nonce(&self) -> (r: u64)
        ensures
            r == packet_nonce(self@),
    {
        proof {
            use_type_invariant(self);
        }
        let raw_nonce = self.raw_nonce();
        u40_from_be(raw_nonce.as_slice(), 0)
    }
}

impl<'a> TryFrom<&'a [u8]> for PacketView<'a> {
    type Error = Error;

    /// Accepts a packet that holds at least a header and a tag.
    fn try_from(bytes: &'a [u8]) -> (r: Result<Self, Self::Error>)
        ensures
            match r {
                Ok(v) => bytes@.len() >= 32 && v@ == bytes@,
                Err(e) => bytes@.len() < 32 && e == Error::InvalidFormat,
            },
    {
        if bytes.len() < HEADER_SIZE + TAG_SIZE {
            return Err(Error::InvalidFormat);
        }
        Ok(Self { bytes })
    }
}

impl<'a> vstd::std_specs::convert::TryFromSpecImpl<&'a [u8]> for PacketView<'a> {
    open spec fn obeys_try_from_spec() -> bool {
        true
    }

    closed spec fn try_from_spec(bytes: &'a [u8]) -> Result<Self, Self::Error> {
        if bytes@.len() < 32 {
            Err(Error::InvalidFormat)
        } else {
            Ok(PacketView { bytes })
        }
    }
}

/// The fields of a received packet.
struct Parts {
    mac: [u8; 6],
    flags: u8,
    raw_nonce: [u8; 5],
    epoch: u32,
    payload_len: usize,
    tag: [u8; 16],
}

impl Parts {
    /// Whether these are the fields of the packet `b`.
    spec fn are_fields_of(&self, b: Seq<u8>) -> bool {
        &&& b.len() >= 32
        &&& self.mac@ == packet_mac(b)
        &&& self.flags == packet_flags(b)
        &&& self.raw_nonce@ == packet_raw_nonce(b)
        &&& self.epoch == packet_epoch(b)
        &&& self.payload_len == b.len() - 32
        &&& self.tag@ == packet_tag(b)
    }

    /// Decodes the 5-byte raw nonce into a counter.
    fn nonce(&self) -> (r: u64)
        ensures
            r == be40_value(self.raw_nonce@),
    {
        u40_from_be(self.raw_nonce.as_slice(), 0)
    }
}

impl Parts {
    /// Splits a packet into its fields; it must hold at least a header and a tag.
    fn try_from(bytes: &[u8]) -> (r: Result<Self, Error>)
        ensures
            match r {
                Ok(p) => p.are_fields_of(bytes@),
                Err(e) => bytes@.len() < 32 && e == Error::InvalidFormat,
            },
    {
        if bytes.len() < HEADER_SIZE + TAG_SIZE {
            return Err(Error::InvalidFormat);
        }
        let b = bytes;
        let mac: [u8; 6] = [
            b[MAC_OFFSET],
            b[MAC_OFFSET + 1],
            b[MAC_OFFSET + 2],
            b[MAC_OFFSET + 3],
            b[MAC_OFFSET + 4],
            b[MAC_OFFSET + 5],
        ];
        let raw_nonce: [u8; 5] = [
            b[NONCE_OFFSET],
            b[NONCE_OFFSET + 1],
            b[NONCE_OFFSET + 2],
            b[NONCE_OFFSET + 3],
            b[NONCE_OFFSET + 4],
        ];
        let epoch = u32_from_be(bytes, EPOCH_OFFSET);
        let payload_len = bytes.len() - TAG_SIZE - PAYLOAD_OFFSET;
        let t = bytes.len() - TAG_SIZE;
        let tag: [u8; 16] = [
            b[t],
            b[t + 1],
            b[t + 2],
            b[t + 3],
            b[t + 4],
            b[t + 5],
            b[t + 6],
            b[t + 7],
            b[t + 8],
            b[t + 9],
            b[t + 10],
            b[t + 11],
            b[t + 12],
            b[t + 13],
            b[t + 14],
            b[t + 15],
        ];
        let flags = bytes[FLAGS_IDX];
        let parts = Self { mac, flags, raw_nonce, epoch, payload_len, tag };
        assert(parts.mac@ =~= packet_mac(bytes@));
        assert(parts.raw_nonce@ =~= packet_raw_nonce(bytes@));
        assert(parts.tag@ =~= packet_tag(bytes@));
        Ok(parts)
    }
}

/// The Associated Data (AD) header authenticated alongside the payload:
/// destination address, flags, nonce and epoch.
pub struct AdHeader {
    inner: [u8; 16],
}

impl View for AdHeader {
    type V = Seq<u8>;

    closed spec fn view(&self) -> Seq<u8> {
        self.inner@
    }
}

impl AdHeader {
    /// Creates a new Associated Data header wrapping destination address,
    /// flag configuration, nonce state, and the current epoch.
    pub fn new(dst_addr: &[u8; 6], flags: u8, nonce: &[u8; 5], epoch: u32) -> (r: Self)
        ensures
            r@ == header_bytes(dst_addr@, flags, nonce@, epoch),
    {
        let e = u32_to_be(epoch);
        let inner: [u8; 16] = [
            dst_addr[0],
            dst_addr[1],
            dst_addr[2],
            dst_addr[3],
            dst_addr[4],
            dst_addr[5],
            flags,
            nonce[0],
            nonce[1],
            nonce[2],
            nonce[3],
            nonce[4],
            e[0],
            e[1],
            e[2],
            e[3],
        ];
        assert(inner@ =~= header_bytes(dst_addr@, flags, nonce@, epoch));
        Self { inner }
    }

    /// The size of the header as 2 big-endian bytes.
    fn u16_be_len(&self) -> (r: [u8; 2])
        ensures
            r@ == be16(16),
    {
        u16_to_be(16)
    }
}

impl Deref for AdHeader {
    type Target = [u8; 16];

    fn deref(&self) -> (r: &[u8; 16])
        ensures
            r@ == self@,
    {
        &self.inner
    }
}

// ---------------------------------------------------------------------------
// The channel
// ---------------------------------------------------------------------------

/// What a channel stands for: its two addresses, its receive and send
/// counters, whether it has heard from the peer in the current epoch, the
/// last nonce accepted under the previous epoch's key (if one is tracked),
/// its root key and its current epoch.
pub struct ChannelView {
    pub peer_mac: Seq<u8>,
    pub host_mac: Seq<u8>,
    pub rx: u64,
    pub tx: u64,
    pub synced: bool,
    pub prev_rx: Option<u64>,
    pub root: Seq<u8>,
    pub epoch: u32,
}

/// Whether the send counter space is used up and the epoch cannot advance.
pub open spec fn send_exhausted(s: ChannelView) -> bool {
    s.tx >= MAX_5_BYTES && s.epoch == u32::MAX
}

/// The receive tracking that the current epoch hands to the next one when
/// it becomes the previous epoch: its last accepted nonce, once the peer
/// has been heard from in it.
pub open spec fn carried_rx(s: ChannelView) -> Option<u64> {
    if s.synced {
        Some(s.rx)
    } else {
        None
    }
}

/// The state after a send consumes a nonce: the counter advances, or, once
/// it is used up, the epoch advances and the counter restarts at zero.
pub open spec fn after_send(s: ChannelView) -> ChannelView {
    if s.tx < MAX_5_BYTES {
        ChannelView { tx: (s.tx + 1) as u64, ..s }
    } else {
        ChannelView {
            epoch: (s.epoch + 1) as u32,
            tx: 0,
            synced: false,
            prev_rx: carried_rx(s),
            ..s
        }
    }
}

/// The state after an encryption attempt.
pub open spec fn send_outcome(s: ChannelView) -> ChannelView {
    if send_exhausted(s) {
        s
    } else {
        after_send(s)
    }
}

/// The error an encryption of a serialized payload of `payload_len` bytes
/// into a frame of `capacity` bytes ends with, if any.
pub open spec fn encrypt_error(s: ChannelView, payload_len: nat, capacity: nat) -> Option<Error> {
    if send_exhausted(s) {
        Some(Error::EpochExhaustion)
    } else if capacity < 16 {
        Some(Error::BufferOverflow)
    } else if payload_len > capacity - 16 {
        Some(Error::PostcardError)
    } else if payload_len > u16::MAX {
        Some(Error::LengthPrefixOverflow)
    } else if payload_len + 32 > capacity {
        Some(Error::BufferOverflow)
    } else {
        None
    }
}

/// Whether an encryption fails before the AES driver is used: every error
/// but a frame too small for the tag.
pub open spec fn fails_before_sealing(s: ChannelView, payload_len: nat, capacity: nat) -> bool {
    encrypt_error(s, payload_len, capacity) matches Some(e) && (e != Error::BufferOverflow
        || capacity < 16)
}

/// The packet a channel in state `s` (after consuming its nonce) sends for `payload`.
pub open spec fn sealed_by(s: ChannelView, flags: u8, payload: Seq<u8>) -> Seq<u8> {
    sealed_packet(
        epoch_key(s.root, s.epoch),
        s.peer_mac,
        flags,
        be40(s.tx as int),
        s.epoch,
        payload,
    )
}

/// Whether the packet's epoch is the one before the channel's current epoch.
pub open spec fn is_previous_epoch(s: ChannelView, b: Seq<u8>) -> bool {
    packet_epoch(b) as int == s.epoch as int - 1
}

/// Whether the packet's nonce is not above the last one accepted under the
/// key of its epoch: the current epoch once the peer is synced, or the
/// previous epoch once a nonce of it is tracked.
pub open spec fn is_replay(s: ChannelView, b: Seq<u8>) -> bool {
    ||| packet_epoch(b) == s.epoch && packet_nonce(b) <= s.rx && s.synced
    ||| is_previous_epoch(s, b) && (s.prev_rx matches Some(r) && packet_nonce(b) <= r)
}

/// The error a packet is refused with before anything is decrypted, if any.
pub open spec fn early_rejection(s: ChannelView, b: Seq<u8>) -> Option<Error> {
    if b.len() < 32 {
        Some(Error::InvalidFormat)
    } else if packet_mac(b) != s.host_mac {
        Some(Error::InvalidMac)
    } else if is_replay(s, b) {
        Some(Error::Duplicate)
    } else {
        None
    }
}

/// The key of the packet's epoch.
pub open spec fn packet_key(s: ChannelView, b: Seq<u8>) -> Seq<u8> {
    epoch_key(s.root, packet_epoch(b))
}

/// Whether the packet passes every check up to and including its tag.
pub open spec fn authenticated(s: ChannelView, b: Seq<u8>) -> bool {
    &&& early_rejection(s, b) is None
    &&& !counter_overflows(b)
    &&& tag_verifies(packet_key(s, b), b)
}

/// Whether the packet's epoch is more than one behind the channel's current
/// epoch, older than its key window.
pub open spec fn is_outdated(s: ChannelView, b: Seq<u8>) -> bool {
    (packet_epoch(b) as int) < (s.epoch as int) - 1
}

/// The state after an authenticated, in-window packet: a packet from a
/// later epoch moves the channel to that epoch, restarts its send counter,
/// takes the packet's nonce and marks the peer as synced (the epoch it
/// leaves hands its tracking on when it becomes the previous one); the
/// first packet of the current epoch takes the packet's nonce and marks the
/// peer as synced.
pub open spec fn after_receive(s: ChannelView, b: Seq<u8>) -> ChannelView {
    let e = packet_epoch(b);
    if e > s.epoch {
        ChannelView {
            epoch: e,
            tx: 0,
            rx: packet_nonce(b),
            synced: true,
            prev_rx: if e as int == s.epoch as int + 1 {
                carried_rx(s)
            } else {
                None
            },
            ..s
        }
    } else if e == s.epoch && !s.synced {
        ChannelView { rx: packet_nonce(b), synced: true, ..s }
    } else {
        s
    }
}

/// The state after a packet has been delivered: its nonce is the last one
/// accepted under the key of its epoch.
pub open spec fn after_delivery(s: ChannelView, b: Seq<u8>) -> ChannelView {
    if is_previous_epoch(s, b) {
        ChannelView { prev_rx: Some(packet_nonce(b)), ..after_receive(s, b) }
    } else {
        ChannelView { rx: packet_nonce(b), ..after_receive(s, b) }
    }
}

// ---------------------------------------------------------------------------
// Laws
// ---------------------------------------------------------------------------

/// A packet sealed under a key carries the header fields it was sealed
/// with, opens under the same key to the sealed payload, and passes its
/// tag check.
pub proof fn lemma_sealed_packet_opens(
    key: Seq<u8>,
    mac: Seq<u8>,
    flags: u8,
    raw_nonce: Seq<u8>,
    epoch: u32,
    payload: Seq<u8>,
)
    requires
        mac.len() == 6,
        raw_nonce.len() == 5,
        payload.len() <= u16::MAX,
    ensures
        ({
            let b = sealed_packet(key, mac, flags, raw_nonce, epoch, payload);
            &&& b.len() == payload.len() + 32
            &&& packet_mac(b) == mac
            &&& packet_flags(b) == flags
            &&& packet_raw_nonce(b) == raw_nonce
            &&& packet_epoch(b) == epoch
            &&& !counter_overflows(b)
            &&& opened_payload(key, b) == payload
            &&& tag_verifies(key, b)
        }),
{
    let b = sealed_packet(key, mac, flags, raw_nonce, epoch, payload);
    let header = header_bytes(mac, flags, raw_nonce, epoch);
    let a0 = a_block_of(mac, raw_nonce);
    let ct = ctr_xor(key, a0, payload);
    let raw_tag = cbc_tag(
        key,
        b_block_of(mac, raw_nonce, payload.len() as u16),
        header_block_of(header),
        payload,
    );
    let tag = masked_tag(key, a0, raw_tag);
    lemma_be32_roundtrip(epoch as int);
    lemma_ctr_xor_involution(key, a0, payload);
    assert(header.len() == 16);
    assert(b == header + ct + tag);
    assert(b.subrange(0, 16) =~= header);
    assert(packet_mac(b) =~= mac);
    assert(packet_raw_nonce(b) =~= raw_nonce);
    assert(b.subrange(12, 16) =~= be32(epoch as int));
    assert(packet_ciphertext(b) =~= ct);
    assert(packet_tag(b) =~= tag);
    lemma_cbc_tag_len(
        key,
        b_block_of(mac, raw_nonce, payload.len() as u16),
        header_block_of(header),
        payload,
    );
    lemma_xor_block_involution(raw_tag, aes128_encrypt(key, a0));
}

/// Changing the flags byte, or any byte of the ciphertext, of a sealed
/// packet makes its tag check fail under the key it was sealed with: the
/// tag authenticates every such byte.
pub proof fn lemma_tampered_packet_fails_tag(
    key: Seq<u8>,
    mac: Seq<u8>,
    flags: u8,
    raw_nonce: Seq<u8>,
    epoch: u32,
    payload: Seq<u8>,
    p: int,
    v: u8,
)
    requires
        mac.len() == 6,
        raw_nonce.len() == 5,
        payload.len() <= u16::MAX,
        p == 6 || HEADER_SIZE <= p < HEADER_SIZE + payload.len(),
        v != sealed_packet(key, mac, flags, raw_nonce, epoch, payload)[p],
    ensures
        !tag_verifies(key, sealed_packet(key, mac, flags, raw_nonce, epoch, payload).update(p, v)),
{
    let b = sealed_packet(key, mac, flags, raw_nonce, epoch, payload);
    lemma_sealed_packet_opens(key, mac, flags, raw_nonce, epoch, payload);
    let b2 = b.update(p, v);
    let n = payload.len();
    assert(packet_mac(b2) =~= packet_mac(b));
    assert(packet_raw_nonce(b2) =~= packet_raw_nonce(b));
    assert(packet_tag(b2) =~= packet_tag(b));
    let a0 = a_block_of(packet_mac(b), packet_raw_nonce(b));
    let b0 = b_block_of(packet_mac(b), packet_raw_nonce(b), n as u16);
    let ct1 = packet_ciphertext(b);
    let ct2 = packet_ciphertext(b2);
    assert(ct1.len() == n && ct2.len() == n);
    let p1 = opened_payload(key, b);
    let p2 = opened_payload(key, b2);
    let h1 = header_block_of(b.subrange(0, 16));
    let h2 = header_block_of(b2.subrange(0, 16));
    let m1 = h1 + zero_pad(p1);
    let m2 = h2 + zero_pad(p2);
    lemma_zero_pad_len(p1);
    lemma_zero_pad_len(p2);
    assert(p1.len() == n && p2.len() == n);
    assert(zero_pad(p1).len() == zero_pad(p2).len());
    let q = if p == 6 {
        8
    } else {
        32 + p - 16
    };
    if p == 6 {
        assert(ct2 =~= ct1);
        assert(p2 =~= p1);
        assert(m1[8] == b[6] && m2[8] == v);
    } else {
        let j = p - 16;
        assert(b2.subrange(0, 16) =~= b.subrange(0, 16));
        assert forall|i: int| 0 <= i < n && i != j implies p2[i] == p1[i] by {
            assert(ct2[i] == ct1[i]);
        }
        assert(ct2[j] == v && ct1[j] == b[p]);
        let k = keystream(key, a0, j / 16)[j % 16];
        assert(j / 16 < max_ctr_blocks());
        assert(p1[j] == ct1[j] ^ k && p2[j] == ct2[j] ^ k);
        let (c1, c2) = (ct1[j], ct2[j]);
        assert(c1 ^ k != c2 ^ k) by (bit_vector)
            requires
                c1 != c2,
        ;
    }
    assert forall|i: int| 0 <= i < m1.len() && i != q implies m1[i] == m2[i] by {
        if i >= 32 {
            assert(m1[i] == zero_pad(p1)[i - 32] && m2[i] == zero_pad(p2)[i - 32]);
        }
    }
    lemma_aes128_block_len(key, b0);
    lemma_cbc_chain_one_byte(key, aes128_encrypt(key, b0), m1, m2, q);
}

/// A packet that one channel sends, with its flags byte or a byte of its
/// ciphertext changed on the way, is never authenticated by a channel that
/// shares the sender's root key: its decryption is refused.
pub proof fn lemma_tampered_sent_packet_refused(
    sender: ChannelView,
    receiver: ChannelView,
    flags: u8,
    payload: Seq<u8>,
    p: int,
    v: u8,
)
    requires
        sender.peer_mac.len() == 6,
        receiver.root == sender.root,
        !send_exhausted(sender),
        payload.len() <= u16::MAX,
        p == 6 || HEADER_SIZE <= p < HEADER_SIZE + payload.len(),
        v != sealed_by(after_send(sender), flags, payload)[p],
    ensures
        !authenticated(receiver, sealed_by(after_send(sender), flags, payload).update(p, v)),
{
    let sent = after_send(sender);
    let key = epoch_key(sent.root, sent.epoch);
    let raw = be40(sent.tx as int);
    assert(sent.tx <= MAX_5_BYTES);
    lemma_be40_roundtrip(sent.tx as int);
    let b = sealed_packet(key, sent.peer_mac, flags, raw, sent.epoch, payload);
    lemma_sealed_packet_opens(key, sent.peer_mac, flags, raw, sent.epoch, payload);
    lemma_tampered_packet_fails_tag(key, sent.peer_mac, flags, raw, sent.epoch, payload, p, v);
    let b2 = b.update(p, v);
    assert(b2.subrange(12, 16) =~= b.subrange(12, 16));
    assert(packet_epoch(b2) == packet_epoch(b));
}

/// A packet that one channel sends reaches a channel whose host address is
/// the sender's peer address and that shares its root key: unless it
/// replays a nonce the receiver has already seen in the packet's epoch, it
/// passes every check up to its tag under the receiver's key for its epoch,
/// and it opens to the sent payload, carrying the sender's new epoch and
/// nonce.
pub proof fn lemma_sent_packet_authenticates(
    sender: ChannelView,
    receiver: ChannelView,
    flags: u8,
    payload: Seq<u8>,
)
    requires
        sender.peer_mac.len() == 6,
        receiver.host_mac == sender.peer_mac,
        receiver.root == sender.root,
        !send_exhausted(sender),
        payload.len() <= u16::MAX,
    ensures
        ({
            let sent = after_send(sender);
            let b = sealed_by(sent, flags, payload);
            &&& packet_epoch(b) == sent.epoch
            &&& packet_nonce(b) == sent.tx
            &&& packet_flags(b) == flags
            &&& early_rejection(receiver, b) == if is_replay(receiver, b) {
                Some(Error::Duplicate)
            } else {
                None
            }
            &&& !is_replay(receiver, b) ==> authenticated(receiver, b)
            &&& opened_payload(packet_key(receiver, b), b) == payload
        }),
{
    let sent = after_send(sender);
    assert(sent.tx <= MAX_5_BYTES);
    lemma_be40_roundtrip(sent.tx as int);
    lemma_sealed_packet_opens(
        epoch_key(sent.root, sent.epoch),
        sent.peer_mac,
        flags,
        be40(sent.tx as int),
        sent.epoch,
        payload,
    );
}

/// A frame sized for a payload type (its worst-case encoded size plus the
/// header and the tag) holds any payload of at most that size: encryption
/// into it fails only once the nonce and epoch spaces are used up.
pub proof fn lemma_frame_size_suffices(s: ChannelView, payload_len: nat, max_size: nat)
    requires
        payload_len <= max_size,
        payload_len <= u16::MAX,
    ensures
        encrypt_error(s, payload_len, max_size + 32) == if send_exhausted(s) {
            Some(Error::EpochExhaustion)
        } else {
            None
        },
{
}

/// Whether the send position (epoch, send counter) of `a` is at or before that of `b`.
pub open spec fn send_position_le(a: ChannelView, b: ChannelView) -> bool {
    a.epoch < b.epoch || (a.epoch == b.epoch && a.tx <= b.tx)
}

/// Sending moves the send position strictly forward, and receiving never
/// moves it back; since each sent packet carries the sender's new epoch and
/// counter, no two packets are sent under the same key with the same nonce.
pub proof fn lemma_send_position_monotonic(s: ChannelView, b: Seq<u8>)
    ensures
        !send_exhausted(s) ==> send_position_le(s, after_send(s)) && after_send(s) != s && (
        after_send(s).epoch, after_send(s).tx) != (s.epoch, s.tx),
        send_position_le(s, send_outcome(s)),
        send_position_le(s, after_receive(s, b)),
        send_position_le(s, after_delivery(s, b)),
{
}

/// Whether the send position of `a` is strictly before that of `b`.
pub open spec fn send_position_lt(a: ChannelView, b: ChannelView) -> bool {
    a.epoch < b.epoch || (a.epoch == b.epoch && a.tx < b.tx)
}

/// One step of a channel's life: a send that consumes a nonce, or any
/// other step that does not move the send position back (receiving, by
/// [`lemma_send_position_monotonic`], or a refused call).
pub open spec fn channel_step(a: ChannelView, b: ChannelView, sent: bool) -> bool {
    if sent {
        !send_exhausted(a) && b == after_send(a)
    } else {
        send_position_le(a, b)
    }
}

/// Whether `run` is a sequence of channel states joined by steps, where
/// `sent[i]` tells whether step `i` sent a packet.
pub open spec fn is_channel_run(run: Seq<ChannelView>, sent: Seq<bool>) -> bool {
    &&& run.len() == sent.len() + 1
    &&& forall|i: int| 0 <= i < sent.len() ==> channel_step(run[i], #[trigger] run[i + 1], sent[i])
}

proof fn lemma_run_position_le(run: Seq<ChannelView>, sent: Seq<bool>, i: int, k: int)
    requires
        is_channel_run(run, sent),
        0 <= i <= k < run.len(),
    ensures
        send_position_le(run[i], run[k]),
    decreases k - i,
{
    if i < k {
        lemma_run_position_le(run, sent, i, k - 1);
        assert(channel_step(run[k - 1], run[(k - 1) + 1], sent[k - 1]));
    }
}

/// A channel never sends two packets with the same epoch and nonce: along
/// any run of steps, each packet sent (which carries the state after its
/// send) has a send position strictly after that of every packet sent
/// before it.
pub proof fn lemma_sent_positions_increase(
    run: Seq<ChannelView>,
    sent: Seq<bool>,
    i: int,
    j: int,
)
    requires
        is_channel_run(run, sent),
        0 <= i < j < sent.len(),
        sent[i],
        sent[j],
    ensures
        send_position_lt(run[i + 1], run[j + 1]),
        (run[i + 1].epoch, run[i + 1].tx) != (run[j + 1].epoch, run[j + 1].tx),
{
    lemma_run_position_le(run, sent, i + 1, j);
    assert(channel_step(run[j], run[j + 1], sent[j]));
}

/// No packet is accepted twice: once a packet that passed every check up
/// to its tag, from any epoch of the receiver's key window, has been
/// delivered, the same packet is refused as a duplicate.
pub proof fn lemma_delivered_packet_is_duplicate(s: ChannelView, b: Seq<u8>)
    requires
        authenticated(s, b),
        !is_outdated(s, b),
    ensures
        early_rejection(after_delivery(s, b), b) == Some(Error::Duplicate),
{
}

/// A packet from a later epoch moves the channel to that epoch with the
/// packet's nonce as the last one received and the peer marked synced,
/// whether or not it is then delivered (a resync packet is not), and
/// restarts the send counter. So after a resync, a packet of the new epoch
/// whose nonce is above the resync's is no replay.
pub proof fn lemma_later_epoch_packet_resets_tracking(s: ChannelView, b: Seq<u8>, b2: Seq<u8>)
    requires
        packet_epoch(b) > s.epoch,
    ensures
        after_receive(s, b).epoch == packet_epoch(b),
        after_receive(s, b).rx == packet_nonce(b),
        after_receive(s, b).synced,
        after_receive(s, b).tx == 0,
        after_receive(s, b).host_mac == s.host_mac,
        after_receive(s, b).peer_mac == s.peer_mac,
        after_receive(s, b).root == s.root,
        packet_epoch(b2) == packet_epoch(b) && packet_nonce(b2) > packet_nonce(b) ==> !is_replay(
            after_receive(s, b),
            b2,
        ),
{
}

/// A packet of the current epoch whose nonce is not above the last one
/// accepted, once the peer is synced, or a packet of the previous epoch
/// whose nonce is not above the last one accepted in it, is refused as a
/// duplicate before anything is decrypted.
pub proof fn lemma_stale_nonce_is_duplicate(s: ChannelView, b: Seq<u8>)
    requires
        b.len() >= 32,
        packet_mac(b) == s.host_mac,
    ensures
        packet_epoch(b) == s.epoch && s.synced && packet_nonce(b) <= s.rx ==> early_rejection(s, b)
            == Some(Error::Duplicate),
        (packet_epoch(b) as int) == (s.epoch as int) - 1 && s.prev_rx is Some && packet_nonce(b)
            <= s.prev_rx->0 ==> early_rejection(s, b) == Some(Error::Duplicate),
{
}

/// The header of a packet: the address, the flags byte, the 5-byte nonce
/// and the big-endian epoch, in that order.
pub proof fn lemma_header_layout(mac: Seq<u8>, flags: u8, raw_nonce: Seq<u8>, epoch: u32)
    requires
        mac.len() == 6,
        raw_nonce.len() == 5,
    ensures
        ({
            let h = header_bytes(mac, flags, raw_nonce, epoch);
            &&& h.len() == 16
            &&& h.subrange(0, 6) == mac
            &&& h[6] == flags
            &&& h.subrange(7, 12) == raw_nonce
            &&& h[12] * 0x100_0000 + h[13] * 0x1_0000 + h[14] * 0x100 + h[15] == epoch
        }),
{
    let h = header_bytes(mac, flags, raw_nonce, epoch);
    lemma_be32_roundtrip(epoch as int);
    assert(h.subrange(0, 6) =~= mac);
    assert(h.subrange(7, 12) =~= raw_nonce);
    assert(h.subrange(12, 16) =~= be32(epoch as int));
}

/// Packets of the current and of the previous epoch are within the key
/// window; a packet two or more epochs behind is outdated.
pub proof fn lemma_outdated_window(s: ChannelView, b: Seq<u8>)
    ensures
        packet_epoch(b) >= s.epoch ==> !is_outdated(s, b),
        packet_epoch(b) + 1 == s.epoch ==> !is_outdated(s, b),
        packet_epoch(b) + 2 <= s.epoch ==> is_outdated(s, b),
{
}

/// The encoded associated data: the length 16 as two big-endian bytes, the
/// sixteen header bytes in order, then fourteen zero bytes, two blocks in all.
pub proof fn lemma_header_block_layout(h: Seq<u8>)
    requires
        h.len() == 16,
    ensures
        header_block_of(h).len() == 32,
        header_block_of(h)[0] == 0,
        header_block_of(h)[1] == 16,
        header_block_of(h).subrange(2, 18) == h,
        forall|i: int| 18 <= i < 32 ==> header_block_of(h)[i] == 0,
{
    assert(header_block_of(h).subrange(2, 18) =~= h);
}

/// The counter-zero block carries flags byte 1, the address, the whole
/// nonce and a zero counter; the first authentication block carries the
/// address, flags byte `0x79`, the whole nonce, the big-endian 16-bit
/// payload length and two zero bytes.
pub proof fn lemma_block_layouts(mac: Seq<u8>, raw_nonce: Seq<u8>, payload_len: u16)
    requires
        mac.len() == 6,
        raw_nonce.len() == 5,
    ensures
        ({
            let a = a_block_of(mac, raw_nonce);
            &&& a.len() == 16
            &&& a[0] == 1
            &&& a.subrange(1, 7) == mac
            &&& a.subrange(7, 12) == raw_nonce
            &&& a[12] == 0 && a[13] == 0 && a[14] == 0 && a[15] == 0
        }),
        ({
            let b = b_block_of(mac, raw_nonce, payload_len);
            &&& b.len() == 16
            &&& b.subrange(0, 6) == mac
            &&& b[6] == 0x79
            &&& b.subrange(7, 12) == raw_nonce
            &&& b[12] * 0x100 + b[13] == payload_len
            &&& b[14] == 0 && b[15] == 0
        }),
{
    let a = a_block_of(mac, raw_nonce);
    let b = b_block_of(mac, raw_nonce, payload_len);
    assert(a.subrange(1, 7) =~= mac);
    assert(a.subrange(7, 12) =~= raw_nonce);
    assert(b.subrange(0, 6) =~= mac);
    assert(b.subrange(7, 12) =~= raw_nonce);
    let v = payload_len as int;
    assert(v == (v / 0x100) % 0x100 * 0x100 + v % 0x100);
}

/// With the key, the first block and the payload fixed, changing any one
/// byte of a packet header changes its raw tag.
pub proof fn lemma_header_byte_changes_tag(
    key: Seq<u8>,
    b0: Seq<u8>,
    h1: Seq<u8>,
    h2: Seq<u8>,
    payload: Seq<u8>,
    i: int,
)
    requires
        b0.len() == 16,
        h1.len() == 16,
        h2.len() == 16,
        0 <= i < 16,
        h1[i] != h2[i],
        forall|j: int| 0 <= j < 16 && j != i ==> h1[j] == h2[j],
    ensures
        cbc_tag(key, b0, header_block_of(h1), payload) != cbc_tag(
            key,
            b0,
            header_block_of(h2),
            payload,
        ),
{
    let m1 = header_block_of(h1) + zero_pad(payload);
    let m2 = header_block_of(h2) + zero_pad(payload);
    lemma_zero_pad_len(payload);
    lemma_header_block_layout(h1);
    lemma_header_block_layout(h2);
    assert(header_block_of(h1)[2 + i] == h1[i]);
    assert(header_block_of(h2)[2 + i] == h2[i]);
    assert forall|j: int| 0 <= j < m1.len() && j != 2 + i implies m1[j] == m2[j] by {
        if 2 <= j < 18 {
            assert(header_block_of(h1)[j] == h1[j - 2]);
            assert(header_block_of(h2)[j] == h2[j - 2]);
        }
    }
    lemma_aes128_block_len(key, b0);
    lemma_cbc_chain_one_byte(key, aes128_encrypt(key, b0), m1, m2, 2 + i);
}

/// The AES-CCM engine bound to one peer: addresses, nonces, epoch keys and
/// the AES peripheral driver.
pub struct PeerChannel<E> where E: Encrypt {
    peer_mac: MacAddr,
    host_mac: MacAddr,
    rx_nonce: Nonce,
    tx_nonce: Nonce,
    is_peer_synced: bool,
    prev_rx_nonce: Option<u64>,
    key_manager: KeyManager,
    aes: E,
}

impl<E: Encrypt> View for PeerChannel<E> {
    type V = ChannelView;

    closed spec fn view(&self) -> ChannelView {
        ChannelView {
            peer_mac: self.peer_mac@,
            host_mac: self.host_mac@,
            rx: self.rx_nonce.counter,
            tx: self.tx_nonce.counter,
            synced: self.is_peer_synced,
            prev_rx: self.prev_rx_nonce,
            root: self.key_manager@.root,
            epoch: self.key_manager@.epoch,
        }
    }
}

impl<E> PeerChannel<E> where E: Encrypt {
    /// The AES peripheral driver the channel encrypts with.
    pub closed spec fn driver(&self) -> E {
        self.aes
    }

    /// A channel's two addresses are six octets each.
    pub proof fn lemma_address_lengths(&self)
        ensures
            self@.peer_mac.len() == 6,
            self@.host_mac.len() == 6,
    {
    }

    /// Creates a channel for one peer from the AES driver, the shared root
    /// key, and the host and peer addresses. It starts at epoch 1 with both
    /// counters at zero and the peer not yet heard from.
    pub fn new(aes: E, root_key: [u8; 32], host_mac: MacAddr, peer_mac: MacAddr) -> (r: Self)
        ensures
            r@ == (ChannelView {
                peer_mac: peer_mac@,
                host_mac: host_mac@,
                rx: 0,
                tx: 0,
                synced: false,
                prev_rx: None,
                root: root_key@,
                epoch: 1,
            }),
            r.driver() == aes,
    {
        PeerChannel {
            peer_mac,
            host_mac,
            rx_nonce: Nonce { counter: 0 },
            tx_nonce: Nonce { counter: 0 },
            is_peer_synced: false,
            prev_rx_nonce: None,
            key_manager: KeyManager::new(root_key, 1),
            aes,
        }
    }

    /// Encrypts a packet whose payload is already serialized, into a frame
    /// of `frame_size` bytes.
    ///
    /// Consumes a nonce first: the send counter advances, or, once its
    /// 40-bit space is used up, the epoch advances and the counter restarts
    /// at zero. Then the header is written, the payload appended, the tag
    /// computed over header and payload, the payload encrypted in place and
    /// the masked tag appended.
    pub fn encrypt(&mut self, packet_data: &PacketData<Vec<u8>>, frame_size: usize) -> (r: Result<
        Frame,
        Error,
    >)
        ensures
            final(self)@ == send_outcome(old(self)@),
            match r {
                Ok(f) => encrypt_error(old(self)@, packet_data.payload@.len(), frame_size as nat)
                    is None && f@ == sealed_by(
                    after_send(old(self)@),
                    packet_data.flags,
                    packet_data.payload@,
                ) && f.spec_capacity() == frame_size && f@.len() == packet_data.payload@.len() + 32
                    && f@.len() <= frame_size && final(self).driver().calls() == old(
                    self,
                ).driver().calls() + sealing_calls(
                    epoch_key(old(self)@.root, after_send(old(self)@).epoch),
                    old(self)@.peer_mac,
                    packet_data.flags,
                    be40(after_send(old(self)@).tx as int),
                    after_send(old(self)@).epoch,
                    packet_data.payload@,
                ),
                Err(e) => encrypt_error(old(self)@, packet_data.payload@.len(), frame_size as nat)
                    == Some(e),
            },
            fails_before_sealing(old(self)@, packet_data.payload@.len(), frame_size as nat)
                ==> final(self).driver() == old(self).driver(),
    {
        let ghost s = self@;
        let raw_nonce = match self.tx_nonce.inc() {
            Some(nonce) => nonce,
            None => {
                if self.key_manager.current_epoch() == u32::MAX {
                    return Err(Error::EpochExhaustion);
                }
                self.inc_epoch();
                proof {
                    assert(be40(0) =~= seq![0u8, 0u8, 0u8, 0u8, 0u8]);
                }
                [0u8; 5]
            },
        };
        assert(self@ == after_send(s));
        assert(raw_nonce@ == be40(self@.tx as int));
        let epoch = self.key_manager.current_epoch();
        let peer_mac = self.peer_mac.octets();
        let mut frame = Frame::new(
            peer_mac,
            packet_data.flags,
            raw_nonce,
            u32_to_be(epoch),
            frame_size,
        )?;
        frame.write_payload(packet_data.payload.as_slice())?;
        let payload_len = packet_data.payload.len();
        if payload_len > 0xFFFF {
            return Err(Error::LengthPrefixOverflow);
        }
        let key = self.key_manager.current_key();
        let mut block_buf = [0u8; 16];
        Self::write_b_block(&mut block_buf, peer_mac, raw_nonce, payload_len as u16);
        let ad_header = AdHeader::new(&peer_mac, packet_data.flags, &raw_nonce, epoch);
        let ghost header = ad_header@;
        let ghost written = frame@;
        assert(written.subrange(16, 16 + payload_len as int) =~= packet_data.payload@);
        let mut tag = self.gen_raw_tag(
            &mut block_buf,
            ad_header,
            frame.inner.as_slice(),
            PAYLOAD_OFFSET,
            payload_len,
            key,
        );
        Self::write_a_block(&mut block_buf, peer_mac, raw_nonce);
        crate::ccm::xor_tag(&mut self.aes, &mut tag, &mut block_buf, key);
        let ok = crate::ccm::xor_payload(
            &mut self.aes,
            frame.bytes_mut(),
            PAYLOAD_OFFSET,
            payload_len,
            &mut block_buf,
            key,
        );
        if !ok {
            return Err(Error::AESCounterOverflow);
        }
        frame.finalize(tag)?;
        proof {
            let p = packet_data.payload@;
            assert(header =~= written.subrange(0, 16));
            assert(frame@ =~= sealed_by(self@, packet_data.flags, p));
        }
        Ok(frame)
    }

    /// Authenticates, decrypts in place and decodes a received packet.
    ///
    /// A packet is refused, before anything is decrypted, if it is shorter
    /// than a header and a tag, not addressed to this host, or its nonce is
    /// not above the last one accepted under the key of its epoch (the
    /// current epoch once the peer is synced, or the previous one once a
    /// nonce of it is tracked). Otherwise the
    /// ciphertext in `bytes` is replaced by the plaintext and the tag is
    /// checked under the key of the packet's epoch. An authenticated packet
    /// from an epoch older than the key window is answered with a resync
    /// frame for the peer. Otherwise the channel follows the packet's epoch
    /// and nonce; a resync packet ends there, any other packet's plaintext
    /// is handed to `decode` and the decoded payload returned with its flags.
    pub fn decrypt<T, F: Fn(&[u8]) -> Option<T>>(&mut self, bytes: &mut [u8], decode: F) -> (r:
        Result<PacketData<T>, Error>)
        requires
            forall|pt: &[u8]| decode.requires((pt,)),
        ensures
            ({
                let s = old(self)@;
                let b = old(bytes)@;
                let key = packet_key(s, b);
                &&& early_rejection(s, b) matches Some(e) ==> r == Err::<PacketData<T>, Error>(e)
                    && final(self)@ == s && final(bytes)@ == b && final(self).driver() == old(
                    self,
                ).driver()
                &&& early_rejection(s, b) is None ==> final(bytes)@ == opened_in_place(key, b)
                &&& early_rejection(s, b) is None && counter_overflows(b) ==> r == Err::<
                    PacketData<T>,
                    Error,
                >(Error::AESCounterOverflow) && final(self)@ == s
                &&& early_rejection(s, b) is None && !counter_overflows(b) && !tag_verifies(
                    key,
                    b,
                ) ==> r == Err::<PacketData<T>, Error>(Error::Authentication) && final(self)@ == s
                &&& early_rejection(s, b) is None && !(authenticated(s, b) && is_outdated(s, b))
                    ==> final(self).driver().calls() == old(self).driver().calls()
                    + opening_calls(key, b)
                &&& authenticated(s, b) && is_outdated(s, b) ==> final(self)@ == send_outcome(s)
                    && match r {
                    Err(Error::PeerDesynced(f)) => encrypt_error(s, 0, 32) is None && f@
                        == sealed_by(after_send(s), RESYNC_FLAG, Seq::empty())
                        && f.spec_capacity() == 32,
                    Err(e) => encrypt_error(s, 0, 32) == Some(e),
                    Ok(_) => false,
                }
                &&& authenticated(s, b) && !is_outdated(s, b) && packet_flags(b)
                    == RESYNC_FLAG ==> r == Err::<PacketData<T>, Error>(Error::SuccessfulResync)
                    && final(self)@ == after_receive(s, b)
                &&& authenticated(s, b) && !is_outdated(s, b) && packet_flags(b)
                    != RESYNC_FLAG ==> exists|pt: &[u8], out: Option<T>|
                    #![trigger decode.ensures((pt,), out)]
                    pt@ == opened_payload(key, b) && decode.ensures((pt,), out) && match out {
                        None => r == Err::<PacketData<T>, Error>(Error::InvalidFormat)
                            && final(self)@ == after_receive(s, b),
                        Some(v) => if packet_flags(b) & RESERVED_FLAG_BITS != 0 {
                            r == Err::<PacketData<T>, Error>(Error::ReservedBitOverride)
                                && final(self)@ == after_receive(s, b)
                        } else {
                            r == Ok::<PacketData<T>, Error>(
                                (PacketData { flags: packet_flags(b), payload: v }),
                            ) && final(self)@ == after_delivery(s, b)
                        },
                    }
            }),
    {
        proof {
            self.key_manager.lemma_view();
        }
        let ghost s = self@;
        let ghost b = bytes@;
        let parts = Parts::try_from(&*bytes)?;
        if !bytes_eq(parts.mac.as_slice(), self.host_mac.octets().as_slice()) {
            return Err(Error::InvalidMac);
        }
        proof {
            lemma_be40_value_roundtrip(packet_raw_nonce(b));
        }
        let epoch_now = self.key_manager.current_epoch();
        if parts.epoch == epoch_now && parts.nonce() <= self.rx_nonce.counter
            && self.is_peer_synced {
            return Err(Error::Duplicate);
        }
        let from_previous_epoch = epoch_now > 0 && parts.epoch == epoch_now - 1;
        if from_previous_epoch {
            if let Some(last) = self.prev_rx_nonce {
                if parts.nonce() <= last {
                    return Err(Error::Duplicate);
                }
            }
        }
        let key_to_use = match self.key_manager.cached_key(parts.epoch) {
            Some(key) => key,
            None => KeyManager::derive_key(&self.key_manager.root_key, parts.epoch),
        };
        let ghost key = key_to_use@;
        let mut block_buf = [0u8; 16];
        Self::write_a_block(&mut block_buf, parts.mac, parts.raw_nonce);
        let mut tag = parts.tag;
        crate::ccm::xor_tag(&mut self.aes, &mut tag, &mut block_buf, key_to_use);
        let ok = crate::ccm::xor_payload(
            &mut self.aes,
            bytes,
            PAYLOAD_OFFSET,
            parts.payload_len,
            &mut block_buf,
            key_to_use,
        );
        proof {
            assert(b.subrange(16, 16 + parts.payload_len as int) =~= packet_ciphertext(b));
            assert(bytes@ =~= opened_in_place(key, b));
        }
        if !ok {
            return Err(Error::AESCounterOverflow);
        }
        assert(bytes@.len() == b.len());
        Self::write_b_block(
            &mut block_buf,
            parts.mac,
            parts.raw_nonce,
            #[verifier::truncate]
            (parts.payload_len as u16),
        );
        let ad_header = AdHeader::new(&parts.mac, parts.flags, &parts.raw_nonce, parts.epoch);
        proof {
            lemma_be32_value_roundtrip(b.subrange(12, 16));
            assert(ad_header@ =~= b.subrange(0, 16));
        }
        let expected_tag = self.gen_raw_tag(
            &mut block_buf,
            ad_header,
            &*bytes,
            PAYLOAD_OFFSET,
            parts.payload_len,
            key_to_use,
        );
        proof {
            assert(bytes@.subrange(16, 16 + parts.payload_len as int) =~= opened_payload(
                key,
                b,
            ));
        }
        if !crate::ccm::is_tag_match_const_time(&tag, &expected_tag) {
            return Err(Error::Authentication);
        }
        proof {
            self.key_manager.lemma_view();
        }
        if self.key_manager.window.is_epoch_outdated(parts.epoch) {
            let resync = PacketData::new_resync();
            return match self.encrypt(&resync, RESYNC_FRAME_SIZE) {
                Ok(frame) => Err(Error::PeerDesynced(frame)),
                Err(e) => Err(e),
            };
        }
        if parts.epoch > epoch_now {
            let carried = if parts.epoch == epoch_now + 1 && self.is_peer_synced {
                Some(self.rx_nonce.counter)
            } else {
                None
            };
            self.key_manager.jump_to_epoch(parts.epoch);
            self.tx_nonce.counter = 0;
            self.rx_nonce.counter = parts.nonce();
            self.is_peer_synced = true;
            self.prev_rx_nonce = carried;
        } else if parts.epoch == self.key_manager.current_epoch() && self.is_peer_synced == false {
            self.rx_nonce.counter = parts.nonce();
            self.is_peer_synced = true;
        }
        assert(self@ == after_receive(s, b));
        if parts.flags == RESYNC_FLAG {
            return Err(Error::SuccessfulResync);
        }
        let payload_end = bytes.len() - TAG_SIZE;
        let plaintext = slice_subrange(&*bytes, PAYLOAD_OFFSET, payload_end);
        let decoded = decode(plaintext);
        let serialized_payload = match decoded {
            Some(v) => v,
            None => {
                return Err(Error::InvalidFormat);
            },
        };
        let packet_data = PacketData::new(parts.flags, serialized_payload)?;
        if from_previous_epoch {
            self.prev_rx_nonce = Some(parts.nonce());
        } else {
            self.rx_nonce.set(parts.nonce());
        }
        Ok(packet_data)
    }

    /// Writes the counter-zero block A0: flags byte 1, MAC, nonce, zero counter.
    fn write_a_block(buf: &mut [u8; 16], mac: [u8; 6], raw_nonce: [u8; 5])
        ensures
            final(buf)@ == a_block_of(mac@, raw_nonce@),
    {
        *buf = [0u8; 16];
        buf[0] = 1;
        let mut i: usize = 0;
        while i < 6
            invariant
                0 <= i <= 6,
                buf@[0] == 1,
                forall|j: int| 0 <= j < i ==> buf@[1 + j] == mac@[j],
                forall|j: int| 7 <= j < 16 ==> buf@[j] == 0,
            decreases 6 - i,
        {
            buf[1 + i] = mac[i];
            i = i + 1;
        }
        let mut i: usize = 0;
        while i < 5
            invariant
                0 <= i <= 5,
                buf@[0] == 1,
                forall|j: int| 0 <= j < 6 ==> buf@[1 + j] == mac@[j],
                forall|j: int| 0 <= j < i ==> buf@[7 + j] == raw_nonce@[j],
                forall|j: int| 12 <= j < 16 ==> buf@[j] == 0,
            decreases 5 - i,
        {
            buf[7 + i] = raw_nonce[i];
            i = i + 1;
        }
        assert(buf@ =~= a_block_of(mac@, raw_nonce@));
    }

    /// Writes the first authentication block B0: MAC, flags byte, nonce,
    /// 16-bit payload length and two zero bytes.
    fn write_b_block(buf: &mut [u8; 16], mac: [u8; 6], raw_nonce: [u8; 5], payload_len: u16)
        ensures
            final(buf)@ == b_block_of(mac@, raw_nonce@, payload_len),
    {
        let len = u16_to_be(payload_len);
        *buf = [
            mac[0],
            mac[1],
            mac[2],
            mac[3],
            mac[4],
            mac[5],
            0b0_1_111_001,
            raw_nonce[0],
            raw_nonce[1],
            raw_nonce[2],
            raw_nonce[3],
            raw_nonce[4],
            len[0],
            len[1],
            0,
            0,
        ];
        assert(buf@ =~= b_block_of(mac@, raw_nonce@, payload_len));
    }

    /// Computes the raw tag of `payload[start..start + len]`: the associated
    /// data is the header's length followed by the header, zero-padded to
    /// two blocks.
    fn gen_raw_tag(
        &mut self,
        b_block: &mut [u8; 16],
        ad_header: AdHeader,
        payload: &[u8],
        start: usize,
        len: usize,
        key_to_use: [u8; 16],
    ) -> (tag: [u8; 16])
        requires
            start + len <= payload@.len(),
        ensures
            tag@ == cbc_tag(
                key_to_use@,
                old(b_block)@,
                header_block_of(ad_header@),
                payload@.subrange(start as int, start + len),
            ),
            final(self)@ == old(self)@,
            final(self).driver().calls() == old(self).driver().calls() + cbc_calls(
                key_to_use@,
                old(b_block)@,
                header_block_of(ad_header@),
                payload@.subrange(start as int, start + len),
            ),
    {
        let size = ad_header.u16_be_len();
        let header = ad_header.deref();
        let padded_header: [u8; 32] = [
            size[0],
            size[1],
            header[0],
            header[1],
            header[2],
            header[3],
            header[4],
            header[5],
            header[6],
            header[7],
            header[8],
            header[9],
            header[10],
            header[11],
            header[12],
            header[13],
            header[14],
            header[15],
            0,
            0,
            0,
            0,
            0,
            0,
            0,
            0,
            0,
            0,
            0,
            0,
            0,
            0,
        ];
        assert(padded_header@ =~= header_block_of(ad_header@));
        crate::ccm::cbc_mac(&mut self.aes, b_block, &padded_header, payload, start, len, key_to_use)
    }

    fn inc_epoch(&mut self)
        ensures
            final(self)@ == (ChannelView {
                epoch: next_epoch(old(self)@.epoch),
                tx: 0,
                synced: false,
                prev_rx: carried_rx(old(self)@),
                ..old(self)@
            }),
            final(self).driver() == old(self).driver(),
    {
        self.key_manager.inc_epoch();
        self.tx_nonce.counter = 0;
        self.prev_rx_nonce = if self.is_peer_synced {
            Some(self.rx_nonce.counter)
        } else {
            None
        };
        self.is_peer_synced = false;
    }

    /// Sets the send counter from 5 big-endian bytes.
    pub fn set_raw_tx_nonce(&mut self, raw_nonce: [u8; 5])
        ensures
            final(self)@ == (ChannelView { tx: be40_value(raw_nonce@) as u64, ..old(self)@ }),
    {
        let nonce = u40_from_be(raw_nonce.as_slice(), 0);
        self.tx_nonce = Nonce { counter: nonce };
    }

    /// Sets the send counter.
    pub fn set_tx_nonce(&mut self, nonce: u64)
        ensures
            final(self)@ == (ChannelView { tx: nonce, ..old(self)@ }),
    {
        self.tx_nonce = Nonce { counter: nonce };
    }

    /// Sets the receive counter.
    pub fn set_rx_nonce(&mut self, nonce: u64)
        ensures
            final(self)@ == (ChannelView { rx: nonce, ..old(self)@ }),
    {
        self.rx_nonce = Nonce { counter: nonce };
    }

    /// The last nonce accepted from the peer.
    pub fn rx_nounce(&self) -> (r: u64)
        ensures
            r == self@.rx,
    {
        self.rx_nonce.counter
    }

    /// The last nonce sent.
    pub fn tx_nounce(&self) -> (r: u64)
        ensures
            r == self@.tx,
    {
        self.tx_nonce.counter
    }

    /// The key of the current epoch.
    pub fn key(&self) -> (r: [u8; 16])
        ensures
            r@ == epoch_key(self@.root, self@.epoch),
    {
        self.key_manager.current_key()
    }

    /// The channel's key manager.
    pub fn key_manager(&self) -> (r: &KeyManager)
        ensures
            r@.root == self@.root,
            r@.epoch == self@.epoch,
    {
        &self.key_manager
    }

    /// Whether a packet of the current epoch has been accepted from the peer.
    pub fn is_peer_synced(&self) -> (r: bool)
        ensures
            r == self@.synced,
    {
        self.is_peer_synced
    }

    /// Moves the key window forward to `epoch`; an epoch at or behind the
    /// current one is ignored. Counters are left as they are; the epoch left
    /// behind hands its receive tracking on when it becomes the previous one.
    pub fn jump_to_epoch(&mut self, epoch: u32)
        ensures
            final(self)@ == if epoch <= old(self)@.epoch {
                old(self)@
            } else {
                ChannelView {
                    epoch,
                    prev_rx: if epoch as int == old(self)@.epoch as int + 1 {
                        carried_rx(old(self)@)
                    } else {
                        None
                    },
                    ..old(self)@
                }
            },
    {
        let epoch_now = self.key_manager.current_epoch();
        if epoch > epoch_now {
            self.prev_rx_nonce = if epoch == epoch_now + 1 && self.is_peer_synced {
                Some(self.rx_nonce.counter)
            } else {
                None
            };
        }
        self.key_manager.jump_to_epoch(epoch);
    }

    /// Advances to the next epoch (wrapping at `u32::MAX`), restarts the
    /// send counter and forgets that the peer is synced; the epoch left
    /// behind keeps its receive tracking as the previous one.
    pub fn inc_curr_epoch(&mut self)
        ensures
            final(self)@ == (ChannelView {
                epoch: next_epoch(old(self)@.epoch),
                tx: 0,
                synced: false,
                prev_rx: carried_rx(old(self)@),
                ..old(self)@
            }),
    {
        self.inc_epoch();
    }

    /// The current epoch.
    pub fn epoch(&self) -> (r: u32)
        ensures
            r == self@.epoch,
    {
        self.key_manager.epoch()
    }
}

} // verus!
