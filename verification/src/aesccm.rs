//! # Single-key AES-CCM packet engine
//!
//! The simpler of the two engines: one fixed key, no epochs, a 12-byte
//! header carrying the destination address, flags and nonce.
//!
//! ```text
//! | dst (6) | flags (1) | ctr (5) | ciphertext (N) | tag (16) |
//! ```
use crate::bytes::{be16, be32, be40, be40_value, lemma_be32_roundtrip, lemma_be40_roundtrip,
    lemma_be40_value_roundtrip, u16_to_be, u32_to_be, u40_from_be};
use crate::aes::{aes128_encrypt, lemma_aes128_block_len};
pub use crate::ccm::Encrypt;
use crate::ccm::{
    Nonce, MAX_5_BYTES, cbc_tag, ctr_xor, lemma_ctr_xor_involution,
    lemma_xor_block_involution, lemma_cbc_tag_len, masked_tag, max_ctr_blocks, xor_block,
    keystream, zero_pad, lemma_zero_pad_len, lemma_cbc_chain_one_byte, cbc_calls, ctr_calls,
    ctr_call_count,
};
use core::ops::Deref;
use vstd::prelude::*;
use vstd::slice::slice_subrange;

verus! {

/// Size of the packet header: destination, flags and nonce.
pub const HEADER_SIZE: usize = 12;

/// The payload size a frame is laid out for.
pub const MAX_PAYLOAD_SIZE: usize = 64;

/// Size of the authentication tag.
pub const TAG_SIZE: usize = 16;

const FLAGS_IDX: usize = 6;

const NONCE_OFFSET: usize = 7;

const MAC_OFFSET: usize = 0;

const PAYLOAD_OFFSET: usize = 12;

/// Capacity of a frame: header, 4 spare bytes, the largest payload and the tag.
pub const FRAME_CAPACITY: usize = HEADER_SIZE + 4 + MAX_PAYLOAD_SIZE + TAG_SIZE;

/// The flag bits a packet may carry; the two high bits are reserved.
pub const FLAGS_MASK: u8 = 0b0011_1111;

/// Why the serializer failed, one variant per error of the wire format's
/// serializer and deserializer.
#[derive(Debug, Clone, Copy, PartialEq, Eq)]
pub enum PostcardError {
    /// A feature the format will never implement.
    WontImplement,
    /// A feature the format intends to support, but does not yet.
    NotYetImplemented,
    /// The serialize buffer is full.
    SerializeBufferFull,
    /// The length of a sequence must be known.
    SerializeSeqLengthUnknown,
    /// Hit the end of buffer, expected more data.
    DeserializeUnexpectedEnd,
    /// Found a varint that didn't terminate.
    DeserializeBadVarint,
    /// Found a bool that wasn't 0 or 1.
    DeserializeBadBool,
    /// Found an invalid unicode char.
    DeserializeBadChar,
    /// Tried to parse invalid utf-8.
    DeserializeBadUtf8,
    /// Found an Option discriminant that wasn't 0 or 1.
    DeserializeBadOption,
    /// Found an enum discriminant that was > `u32::MAX`.
    DeserializeBadEnum,
    /// The input data was not well encoded.
    DeserializeBadEncoding,
    /// Bad CRC while deserializing.
    DeserializeBadCrc,
    /// Serde serialization error.
    SerdeSerCustom,
    /// Serde deserialization error.
    SerdeDeCustom,
    /// Error while processing `collect_str` during serialization.
    CollectStrError,
    /// An error this list does not name.
    Other,
}

/// Errors that can occur during packet construction, serialization, or decryption.
#[derive(Debug, Clone, PartialEq, Eq)]
pub enum Error {
    /// Cryptographic verification failed (tampered payload or invalid key).
    Authentication,
    /// The packet does not match the expected structure or is too small.
    InvalidFormat,
    /// The payload does not fit the frame.
    BufferOverflow,
    /// The 5-byte AES counter exceeded its maximum value ($2^{40} - 1$).
    AESCounterOverflow,
    /// Received a packet with a duplicate or older nonce (replay attack protection).
    Duplicate,
    /// The packet's tag does not match its contents.
    Corrupted,
    /// If the flag used overrides some reserved bytes
    ReservedBytesOverride,
    /// Serialization of the payload failed.
    Postcard(PostcardError),
}

// ---------------------------------------------------------------------------
// Packet layout
// ---------------------------------------------------------------------------

/// The 12-byte header (and associated data): destination, flags, nonce.
pub open spec fn header_bytes(mac: Seq<u8>, flags: u8, raw_nonce: Seq<u8>) -> Seq<u8> {
    mac + seq![flags] + raw_nonce
}

/// The counter-zero block A0: flags byte 4, address, nonce, zero counter.
///
/// This is the layout of this protocol's wire format, which both peers
/// must share; it is not the layout RFC 3610 prescribes for this block.
pub open spec fn a_block_of(mac: Seq<u8>, raw_nonce: Seq<u8>) -> Seq<u8> {
    seq![4u8] + mac + raw_nonce + seq![0u8, 0u8, 0u8, 0u8]
}

/// The first authentication block B0: address, flags byte, nonce and the
/// 32-bit payload length.
///
/// This is the layout of this protocol's wire format, which both peers
/// must share; it is not the layout RFC 3610 prescribes for this block.
pub open spec fn b_block_of(mac: Seq<u8>, raw_nonce: Seq<u8>, payload_len: u32) -> Seq<u8> {
    mac + seq![0b0_1_111_011u8] + raw_nonce + be32(payload_len as int)
}

/// The associated-data block: the header's 16-bit length, the header, two zero bytes.
pub open spec fn header_block_of(header: Seq<u8>) -> Seq<u8> {
    be16(12) + header + seq![0u8, 0u8]
}

/// The requests that sealing `payload` under `key` makes of the AES driver,
/// in order: the CBC-MAC blocks, the counter-zero block that masks the tag,
/// and the counter blocks of the payload's keystream.
pub open spec fn sealing_calls(
    key: Seq<u8>,
    mac: Seq<u8>,
    flags: u8,
    raw_nonce: Seq<u8>,
    payload: Seq<u8>,
) -> Seq<(Seq<u8>, Seq<u8>)> {
    let a0 = a_block_of(mac, raw_nonce);
    cbc_calls(
        key,
        b_block_of(mac, raw_nonce, payload.len() as u32),
        header_block_of(header_bytes(mac, flags, raw_nonce)),
        payload,
    ) + seq![(key, a0)] + ctr_calls(key, a0, ctr_call_count(payload.len() as int))
}

/// The packet carrying `payload` sealed under `key`.
pub open spec fn sealed_packet(
    key: Seq<u8>,
    mac: Seq<u8>,
    flags: u8,
    raw_nonce: Seq<u8>,
    payload: Seq<u8>,
) -> Seq<u8> {
    let header = header_bytes(mac, flags, raw_nonce);
    let a0 = a_block_of(mac, raw_nonce);
    let raw_tag = cbc_tag(
        key,
        b_block_of(mac, raw_nonce, payload.len() as u32),
        header_block_of(header),
        payload,
    );
    header + ctr_xor(key, a0, payload) + masked_tag(key, a0, raw_tag)
}

pub open spec fn packet_mac(b: Seq<u8>) -> Seq<u8> {
    b.subrange(0, 6)
}

pub open spec fn packet_flags(b: Seq<u8>) -> u8 {
    b[6]
}

pub open spec fn packet_raw_nonce(b: Seq<u8>) -> Seq<u8> {
    b.subrange(7, 12)
}

pub open spec fn packet_nonce(b: Seq<u8>) -> u64 {
    be40_value(b.subrange(7, 12)) as u64
}

pub open spec fn packet_ciphertext(b: Seq<u8>) -> Seq<u8> {
    b.subrange(12, b.len() - 16)
}

pub open spec fn packet_tag(b: Seq<u8>) -> Seq<u8> {
    b.subrange(b.len() - 16, b.len() as int)
}

/// The plaintext obtained by running the CTR transform over the packet's ciphertext.
pub open spec fn opened_payload(key: Seq<u8>, b: Seq<u8>) -> Seq<u8> {
    ctr_xor(key, a_block_of(packet_mac(b), packet_raw_nonce(b)), packet_ciphertext(b))
}

/// Whether the packet's tag authenticates its header and opened payload under `key`.
pub open spec fn tag_verifies(key: Seq<u8>, b: Seq<u8>) -> bool {
    cbc_tag(
        key,
        b_block_of(packet_mac(b), packet_raw_nonce(b), packet_ciphertext(b).len() as u32),
        header_block_of(b.subrange(0, 12)),
        opened_payload(key, b),
    ) == xor_block(
        packet_tag(b),
        aes128_encrypt(key, a_block_of(packet_mac(b), packet_raw_nonce(b))),
    )
}

/// The requests that opening the packet under `key` makes of the AES
/// driver, in order: the counter-zero block that unmasks the tag, the
/// counter blocks of the keystream and, unless the block counter runs out,
/// the CBC-MAC blocks over the header and the opened payload.
pub open spec fn opening_calls(key: Seq<u8>, b: Seq<u8>) -> Seq<(Seq<u8>, Seq<u8>)> {
    let a0 = a_block_of(packet_mac(b), packet_raw_nonce(b));
    let n = packet_ciphertext(b).len();
    let keystream_calls = seq![(key, a0)] + ctr_calls(key, a0, ctr_call_count(n as int));
    if counter_overflows(b) {
        keystream_calls
    } else {
        keystream_calls + cbc_calls(
            key,
            b_block_of(packet_mac(b), packet_raw_nonce(b), n as u32),
            header_block_of(b.subrange(0, 12)),
            opened_payload(key, b),
        )
    }
}

/// Whether decrypting the packet would run the 32-bit block counter out.
pub open spec fn counter_overflows(b: Seq<u8>) -> bool {
    packet_ciphertext(b).len() / 16 >= max_ctr_blocks()
}

/// The packet with its ciphertext replaced in place by the opened payload.
pub open spec fn opened_in_place(key: Seq<u8>, b: Seq<u8>) -> Seq<u8> {
    b.subrange(0, 12) + opened_payload(key, b) + packet_tag(b)
}

// ---------------------------------------------------------------------------
// Frame
// ---------------------------------------------------------------------------

/// A serialized packet buffer of `FRAME_CAPACITY` bytes.
#[derive(Debug)]
pub struct Frame {
    inner: Vec<u8>,
}

impl View for Frame {
    type V = Seq<u8>;

    /// The bytes written so far.
    closed spec fn view(&self) -> Seq<u8> {
        self.inner@
    }
}

impl Default for Frame {
    fn default() -> (r: Self)
        ensures
            r@ == Seq::<u8>::empty(),
    {
        Self { inner: Vec::new() }
    }
}

impl Frame {
    /// A frame holding the packet header.
    fn new(mac: [u8; 6], flags: u8, raw_nonce: [u8; 5]) -> (r: Result<Self, Error>)
        ensures
            r matches Ok(f) && f@ == mac@ + seq![flags] + raw_nonce@,
    {
        let mut frame = Self::default();
        frame.extend_from_slice(mac.as_slice())?;
        frame.push(flags)?;
        frame.extend_from_slice(raw_nonce.as_slice())?;
        assert(frame@ =~= mac@ + seq![flags] + raw_nonce@);
        Ok(frame)
    }

    /// Appends the serialized payload, which must fit the rest of the buffer.
    fn write_payload(&mut self, payload: &[u8]) -> (r: Result<(), Error>)
        ensures
            match r {
                Ok(()) => old(self)@.len() + payload@.len() <= FRAME_CAPACITY && final(self)@
                    == old(self)@ + payload@,
                Err(e) => old(self)@.len() + payload@.len() > FRAME_CAPACITY && e
                    == Error::BufferOverflow && final(self)@ == old(self)@,
            },
    {
        self.extend_from_slice(payload)
    }

    /// Appends the authentication tag.
    fn finalize(&mut self, tag: [u8; 16]) -> (r: Result<(), Error>)
        ensures
            match r {
                Ok(()) => old(self)@.len() + 16 <= FRAME_CAPACITY && final(self)@ == old(self)@
                    + tag@,
                Err(e) => old(self)@.len() + 16 > FRAME_CAPACITY && e == Error::BufferOverflow
                    && final(self)@ == old(self)@,
            },
    {
        self.extend_from_slice(tag.as_slice())
    }

    /// The bytes of the packet.
    pub fn bytes(&self) -> (r: &[u8])
        ensures
            r@ == self@,
    {
        self.inner.as_slice()
    }

    /// The bytes of the packet, mutably.
    pub fn bytes_mut(&mut self) -> (r: &mut [u8])
        ensures
            r@ == old(self)@,
            final(self)@ == final(r)@,
    {
        self.inner.as_mut_slice()
    }

    fn push(&mut self, byte: u8) -> (r: Result<(), Error>)
        ensures
            match r {
                Ok(()) => old(self)@.len() < FRAME_CAPACITY && final(self)@ == old(self)@.push(
                    byte,
                ),
                Err(e) => old(self)@.len() >= FRAME_CAPACITY && e == Error::BufferOverflow
                    && final(self)@ == old(self)@,
            },
    {
        if self.inner.len() >= FRAME_CAPACITY {
            return Err(Error::BufferOverflow);
        }
        self.inner.push(byte);
        Ok(())
    }

    fn extend_from_slice(&mut self, src: &[u8]) -> (r: Result<(), Error>)
        ensures
            match r {
                Ok(()) => old(self)@.len() + src@.len() <= FRAME_CAPACITY && final(self)@
                    == old(self)@ + src@,
                Err(e) => old(self)@.len() + src@.len() > FRAME_CAPACITY && e
                    == Error::BufferOverflow && final(self)@ == old(self)@,
            },
    {
        let fits = match src.len().checked_add(self.inner.len()) {
            Some(total) => total <= FRAME_CAPACITY,
            None => false,
        };
        if !fits {
            return Err(Error::BufferOverflow);
        }
        let ghost start = self.inner@;
        let mut i: usize = 0;
        while i < src.len()
            invariant
                0 <= i <= src@.len(),
                start.len() + src@.len() <= FRAME_CAPACITY,
                self.inner@ == start + src@.subrange(0, i as int),
            decreases src@.len() - i,
        {
            self.inner.push(src[i]);
            i = i + 1;
            assert(self.inner@ =~= start + src@.subrange(0, i as int));
        }
        assert(src@.subrange(0, src@.len() as int) =~= src@);
        Ok(())
    }
}

// ---------------------------------------------------------------------------
// Packet data, addresses
// ---------------------------------------------------------------------------

/// A standard 6-byte media access control (MAC) address.
#[derive(Debug, Copy, Clone, PartialEq, Eq)]
pub struct MacAddr {
    inner: [u8; 6],
}

impl View for MacAddr {
    type V = Seq<u8>;

    closed spec fn view(&self) -> Seq<u8> {
        self.inner@
    }
}

impl MacAddr {
    /// Creates a new MAC address from individual octets.
    pub fn new(f1: u8, f2: u8, f3: u8, f4: u8, f5: u8, f6: u8) -> (r: Self)
        ensures
            r@ == seq![f1, f2, f3, f4, f5, f6],
    {
        let r = Self { inner: [f1, f2, f3, f4, f5, f6] };
        assert(r@ =~= seq![f1, f2, f3, f4, f5, f6]);
        r
    }

    /// The six octets.
    pub fn octets(&self) -> (r: [u8; 6])
        ensures
            r@ == self@,
    {
        self.inner
    }
}

impl Default for MacAddr {
    /// Defaults to the broadcast hardware address (`FF:FF:FF:FF:FF:FF`).
    fn default() -> (r: Self)
        ensures
            r@ == seq![0xFFu8, 0xFF, 0xFF, 0xFF, 0xFF, 0xFF],
    {
        let r = MacAddr { inner: [0xFF, 0xFF, 0xFF, 0xFF, 0xFF, 0xFF] };
        assert(r@ =~= seq![0xFFu8, 0xFF, 0xFF, 0xFF, 0xFF, 0xFF]);
        r
    }
}

impl From<[u8; 6]> for MacAddr {
    fn from(value: [u8; 6]) -> (r: Self)
        ensures
            r@ == value@,
    {
        Self { inner: value }
    }
}

impl vstd::std_specs::convert::FromSpecImpl<[u8; 6]> for MacAddr {
    open spec fn obeys_from_spec() -> bool {
        true
    }

    closed spec fn from_spec(v: [u8; 6]) -> Self {
        MacAddr { inner: v }
    }
}

impl Deref for MacAddr {
    type Target = [u8; 6];

    fn deref(&self) -> (r: &[u8; 6])
        ensures
            r@ == self@,
    {
        &self.inner
    }
}

/// Represents the raw data fields to be packaged securely into an encrypted frame.
#[derive(Debug, PartialEq, Eq, Copy, Clone)]
pub struct PacketData<T> {
    /// Destination MAC address.
    pub dst: MacAddr,
    /// Protocol or routing control flags.
    pub flags: u8,
    /// The payload: its serialized bytes when sealed, its decoded value when opened.
    pub payload: T,
}

impl<T> PacketData<T> {
    /// Instantiates a new packet data structure ready for processing.
    /// The two high bits of the flags are reserved and are cleared.
    pub fn new(dst: MacAddr, flags: u8, payload: T) -> (r: Self)
        ensures
            r.dst == dst,
            r.flags == flags & FLAGS_MASK,
            r.payload == payload,
    {
        let flags = flags & FLAGS_MASK;
        Self { dst, flags, payload }
    }
}

// ---------------------------------------------------------------------------
// Views on received packets
// ---------------------------------------------------------------------------

/// A zero-copy view into a raw packet buffer: `dst | flags | nonce | ...`.
pub struct PacketView<'a> {
    bytes: &'a [u8],
}

impl<'a> View for PacketView<'a> {
    type V = Seq<u8>;

    closed spec fn view(&self) -> Seq<u8> {
        self.bytes@
    }
}

impl<'a> PacketView<'a> {
    #[verifier::type_invariant]
    closed spec fn longer_than_header_and_tag(self) -> bool {
        self.bytes@.len() > HEADER_SIZE + TAG_SIZE
    }

    /// Creates a view of a packet, which must be longer than a header and a tag.
    pub fn new(bytes: &'a [u8]) -> (r: Result<Self, Error>)
        ensures
            match r {
                Ok(v) => bytes@.len() > 28 && v@ == bytes@,
                Err(e) => bytes@.len() <= 28 && e == Error::InvalidFormat,
            },
    {
        Self::try_from(bytes)
    }

    /// Returns the 6-byte MAC address from the packet.
    pub fn mac(&self) -> (r: [u8; 6])
        ensures
            r@ == packet_mac(self@),
    {
        proof {
            use_type_invariant(self);
        }
        let b = self.bytes;
        let r: [u8; 6] = [
            b[MAC_OFFSET],
            b[MAC_OFFSET + 1],
            b[MAC_OFFSET + 2],
            b[MAC_OFFSET + 3],
            b[MAC_OFFSET + 4],
            b[MAC_OFFSET + 5],
        ];
        assert(r@ =~= packet_mac(self@));
        r
    }

    /// Returns the packet flags byte.
    pub fn flags(&self) -> (r: u8)
        ensures
            r == packet_flags(self@),
    {
        proof {
            use_type_invariant(self);
        }
        self.bytes[FLAGS_IDX]
    }

    /// Returns the raw 5-byte nonce field.
    pub fn raw_nonce(&self) -> (r: [u8; 5])
        ensures
            r@ == packet_raw_nonce(self@),
    {
        proof {
            use_type_invariant(self);
        }
        let b = self.bytes;
        let r: [u8; 5] = [
            b[NONCE_OFFSET],
            b[NONCE_OFFSET + 1],
            b[NONCE_OFFSET + 2],
            b[NONCE_OFFSET + 3],
            b[NONCE_OFFSET + 4],
        ];
        assert(r@ =~= packet_raw_nonce(self@));
        r
    }

    /// Returns the raw nonce as a 64-bit integer.
    pub fn nonce(&self) -> (r: u64)
        ensures
            r == packet_nonce(self@),
    {
        let raw_nonce = self.raw_nonce();
        u40_from_be(raw_nonce.as_slice(), 0)
    }
}

impl<'a> TryFrom<&'a [u8]> for PacketView<'a> {
    type Error = Error;

    /// Accepts a packet that is longer than a header and a tag.
    fn try_from(bytes: &'a [u8]) -> (r: Result<Self, Self::Error>)
        ensures
            match r {
                Ok(v) => bytes@.len() > 28 && v@ == bytes@,
                Err(e) => bytes@.len() <= 28 && e == Error::InvalidFormat,
            },
    {
        if bytes.len() <= HEADER_SIZE + TAG_SIZE {
            return Err(Error::InvalidFormat);
        }
        Ok(Self { bytes })
    }
}

impl<'a> vstd::std_specs::convert::TryFromSpecImpl<&'a [u8]> for PacketView<'a> {
    open spec fn obeys_try_from_spec() -> bool {
        true
    }

    closed spec fn try_from_spec(bytes: &'a [u8]) -> Result<Self, Self::Error> {
        if bytes@.len() <= 28 {
            Err(Error::InvalidFormat)
        } else {
            Ok(PacketView { bytes })
        }
    }
}

/// The fields of a received packet.
struct Parts {
    mac: [u8; 6],
    flags: u8,
    raw_nonce: [u8; 5],
    payload_len: usize,
    tag: [u8; 16],
}

impl Parts {
    /// Whether these are the fields of the packet `b`.
    spec fn are_fields_of(&self, b: Seq<u8>) -> bool {
        &&& b.len() > 28
        &&& self.mac@ == packet_mac(b)
        &&& self.flags == packet_flags(b)
        &&& self.raw_nonce@ == packet_raw_nonce(b)
        &&& self.payload_len == b.len() - 28
        &&& self.tag@ == packet_tag(b)
    }

    /// Decodes the 5-byte raw nonce into a counter.
    fn nonce(&self) -> (r: u64)
        ensures
            r == be40_value(self.raw_nonce@),
    {
        u40_from_be(self.raw_nonce.as_slice(), 0)
    }

    /// Splits a packet into its fields; it must be longer than a header and a tag.
    fn try_from(bytes: &[u8]) -> (r: Result<Self, Error>)
        ensures
            match r {
                Ok(p) => p.are_fields_of(bytes@),
                Err(e) => bytes@.len() <= 28 && e == Error::InvalidFormat,
            },
    {
        if bytes.len() <= HEADER_SIZE + TAG_SIZE {
            return Err(Error::InvalidFormat);
        }
        let b = bytes;
        let mac: [u8; 6] = [
            b[MAC_OFFSET],
            b[MAC_OFFSET + 1],
            b[MAC_OFFSET + 2],
            b[MAC_OFFSET + 3],
            b[MAC_OFFSET + 4],
            b[MAC_OFFSET + 5],
        ];
        let raw_nonce: [u8; 5] = [
            b[NONCE_OFFSET],
            b[NONCE_OFFSET + 1],
            b[NONCE_OFFSET + 2],
            b[NONCE_OFFSET + 3],
            b[NONCE_OFFSET + 4],
        ];
        let payload_len = bytes.len() - TAG_SIZE - PAYLOAD_OFFSET;
        let t = bytes.len() - TAG_SIZE;
        let tag: [u8; 16] = [
            b[t],
            b[t + 1],
            b[t + 2],
            b[t + 3],
            b[t + 4],
            b[t + 5],
            b[t + 6],
            b[t + 7],
            b[t + 8],
            b[t + 9],
            b[t + 10],
            b[t + 11],
            b[t + 12],
            b[t + 13],
            b[t + 14],
            b[t + 15],
        ];
        let flags = bytes[FLAGS_IDX];
        let parts = Self { mac, flags, raw_nonce, payload_len, tag };
        assert(parts.mac@ =~= packet_mac(bytes@));
        assert(parts.raw_nonce@ =~= packet_raw_nonce(bytes@));
        assert(parts.tag@ =~= packet_tag(bytes@));
        Ok(parts)
    }
}

/// The Associated Data (AD) header authenticated alongside the payload:
/// destination address, flags and nonce.
pub struct AdHeader {
    inner: [u8; 12],
}

impl View for AdHeader {
    type V = Seq<u8>;

    closed spec fn view(&self) -> Seq<u8> {
        self.inner@
    }
}

impl AdHeader {
    /// Creates a new Associated Data header wrapping destination address,
    /// flag configuration, and nonce state.
    pub fn new(dst_addr: &[u8; 6], flags: u8, nonce: &[u8; 5]) -> (r: Self)
        ensures
            r@ == header_bytes(dst_addr@, flags, nonce@),
    {
        let inner: [u8; 12] = [
            dst_addr[0],
            dst_addr[1],
            dst_addr[2],
            dst_addr[3],
            dst_addr[4],
            dst_addr[5],
            flags,
            nonce[0],
            nonce[1],
            nonce[2],
            nonce[3],
            nonce[4],
        ];
        assert(inner@ =~= header_bytes(dst_addr@, flags, nonce@));
        Self { inner }
    }

    /// The size of the header as 2 big-endian bytes.
    fn u16_be_len(&self) -> (r: [u8; 2])
        ensures
            r@ == be16(12),
    {
        u16_to_be(12)
    }
}

impl From<[u8; 16]> for AdHeader {
    /// Takes the header out of a padded header block: bytes 2..14.
    fn from(value: [u8; 16]) -> (r: Self)
        ensures
            r@ == value@.subrange(2, 14),
    {
        let inner: [u8; 12] = [
            value[2],
            value[3],
            value[4],
            value[5],
            value[6],
            value[7],
            value[8],
            value[9],
            value[10],
            value[11],
            value[12],
            value[13],
        ];
        assert(inner@ =~= value@.subrange(2, 14));
        Self { inner }
    }
}

impl vstd::std_specs::convert::FromSpecImpl<[u8; 16]> for AdHeader {
    open spec fn obeys_from_spec() -> bool {
        false
    }

    closed spec fn from_spec(v: [u8; 16]) -> Self {
        vstd::pervasive::arbitrary()
    }
}

impl Deref for AdHeader {
    type Target = [u8; 12];

    fn deref(&self) -> (r: &[u8; 12])
        ensures
            r@ == self@,
    {
        &self.inner
    }
}

// ---------------------------------------------------------------------------
// The engine
// ---------------------------------------------------------------------------

/// What an engine stands for: its receive and send counters and its key.
pub struct EngineView {
    pub rx: u64,
    pub tx: u64,
    pub key: Seq<u8>,
}

/// The error an encryption of a serialized payload of `payload_len` bytes ends with, if any.
pub open spec fn encrypt_error(s: EngineView, payload_len: nat) -> Option<Error> {
    if s.tx >= MAX_5_BYTES {
        Some(Error::AESCounterOverflow)
    } else if payload_len + 28 > FRAME_CAPACITY {
        Some(Error::BufferOverflow)
    } else {
        None
    }
}

/// The error a packet is refused with before its tag is checked, if any.
pub open spec fn early_rejection(s: EngineView, b: Seq<u8>) -> Option<Error> {
    if b.len() <= 28 {
        Some(Error::InvalidFormat)
    } else if packet_nonce(b) <= s.rx {
        Some(Error::Duplicate)
    } else {
        None
    }
}

/// Whether the packet passes every check up to and including its tag.
pub open spec fn authenticated(s: EngineView, b: Seq<u8>) -> bool {
    &&& early_rejection(s, b) is None
    &&& !counter_overflows(b)
    &&& tag_verifies(s.key, b)
}

/// The AES-CCM engine: one key, the nonces and the peripheral driver.
pub struct AESCCM<E> where E: Encrypt {
    rx_nonce: Nonce,
    tx_nonce: Nonce,
    key: [u8; 16],
    aes: E,
}

impl<E: Encrypt> View for AESCCM<E> {
    type V = EngineView;

    closed spec fn view(&self) -> EngineView {
        EngineView { rx: self.rx_nonce.counter, tx: self.tx_nonce.counter, key: self.key@ }
    }
}

impl<E> AESCCM<E> where E: Encrypt {
    /// The AES peripheral driver the engine encrypts with.
    pub closed spec fn driver(&self) -> E {
        self.aes
    }

    /// Creates a new engine from the AES driver and a key; both counters start at zero.
    pub fn new(aes: E, key: [u8; 16]) -> (r: Self)
        ensures
            r@ == (EngineView { rx: 0, tx: 0, key: key@ }),
            r.driver() == aes,
    {
        AESCCM { rx_nonce: Nonce { counter: 0 }, tx_nonce: Nonce { counter: 0 }, key, aes }
    }

    /// Encrypts a packet whose payload is already serialized.
    ///
    /// Takes the next nonce, writes the header, appends the payload,
    /// computes the tag over header and payload, encrypts the payload in
    /// place and appends the masked tag.
    pub fn encrypt(&mut self, packet_data: &PacketData<Vec<u8>>) -> (r: Result<Frame, Error>)
        ensures
            final(self)@ == if old(self)@.tx >= MAX_5_BYTES {
                old(self)@
            } else {
                EngineView { tx: (old(self)@.tx + 1) as u64, ..old(self)@ }
            },
            match r {
                Ok(f) => encrypt_error(old(self)@, packet_data.payload@.len()) is None && f@
                    == sealed_packet(
                    old(self)@.key,
                    packet_data.dst@,
                    packet_data.flags,
                    be40(final(self)@.tx as int),
                    packet_data.payload@,
                ) && f@.len() == packet_data.payload@.len() + 28 && f@.len() <= FRAME_CAPACITY
                    && final(self).driver().calls() == old(self).driver().calls() + sealing_calls(
                    old(self)@.key,
                    packet_data.dst@,
                    packet_data.flags,
                    be40(final(self)@.tx as int),
                    packet_data.payload@,
                ),
                Err(e) => encrypt_error(old(self)@, packet_data.payload@.len()) == Some(e),
            },
            old(self)@.tx >= MAX_5_BYTES ==> final(self).driver() == old(self).driver(),
    {
        let mac = packet_data.dst.octets();
        let raw_nonce = match self.tx_nonce.inc() {
            Some(nonce) => nonce,
            None => {
                return Err(Error::AESCounterOverflow);
            },
        };
        let mut frame = Frame::new(mac, packet_data.flags, raw_nonce)?;
        frame.write_payload(packet_data.payload.as_slice())?;
        let payload_len = packet_data.payload.len();
        let mut block_buf = [0u8; 16];
        Self::write_b_block(&mut block_buf, mac, raw_nonce, payload_len);
        let ad_header = AdHeader::new(&mac, packet_data.flags, &raw_nonce);
        let ghost header = ad_header@;
        let ghost written = frame@;
        assert(written.subrange(12, 12 + payload_len as int) =~= packet_data.payload@);
        let mut tag = self.gen_raw_tag(
            &mut block_buf,
            ad_header,
            frame.inner.as_slice(),
            PAYLOAD_OFFSET,
            payload_len,
        );
        Self::write_a_block(&mut block_buf, mac, raw_nonce);
        crate::ccm::xor_tag(&mut self.aes, &mut tag, &mut block_buf, self.key);
        let ok = crate::ccm::xor_payload(
            &mut self.aes,
            frame.bytes_mut(),
            PAYLOAD_OFFSET,
            payload_len,
            &mut block_buf,
            self.key,
        );
        if !ok {
            return Err(Error::AESCounterOverflow);
        }
        frame.finalize(tag)?;
        proof {
            assert(header =~= written.subrange(0, 12));
            assert(frame@ =~= sealed_packet(
                self.key@,
                packet_data.dst@,
                packet_data.flags,
                raw_nonce@,
                packet_data.payload@,
            ));
        }
        Ok(frame)
    }

    /// Authenticates, decrypts in place and decodes a received packet.
    ///
    /// A packet no longer than a header and a tag, or whose nonce is not
    /// beyond the last accepted one, is refused before anything is
    /// decrypted. Otherwise the ciphertext in `bytes` is replaced by the
    /// plaintext and the tag checked; the plaintext of an authentic packet
    /// is handed to `decode`, and on success the nonce is recorded and the
    /// packet returned with its address and its flags (reserved bits cleared).
    pub fn decrypt<T, F: Fn(&[u8]) -> Option<T>>(&mut self, bytes: &mut [u8], decode: F) -> (r:
        Result<PacketData<T>, Error>)
        requires
            forall|pt: &[u8]| decode.requires((pt,)),
        ensures
            ({
                let s = old(self)@;
                let b = old(bytes)@;
                &&& early_rejection(s, b) matches Some(e) ==> r == Err::<PacketData<T>, Error>(e)
                    && final(bytes)@ == b && final(self).driver() == old(self).driver()
                &&& early_rejection(s, b) is None ==> final(bytes)@ == opened_in_place(
                    s.key,
                    b,
                )
                &&& early_rejection(s, b) is None && counter_overflows(b) ==> r == Err::<
                    PacketData<T>,
                    Error,
                >(Error::AESCounterOverflow)
                &&& early_rejection(s, b) is None && !counter_overflows(b) && !tag_verifies(
                    s.key,
                    b,
                ) ==> r == Err::<PacketData<T>, Error>(Error::Corrupted)
                &&& early_rejection(s, b) is None ==> final(self).driver().calls() == old(
                    self,
                ).driver().calls() + opening_calls(s.key, b)
                &&& !authenticated(s, b) ==> final(self)@ == s
                &&& final(self)@.rx >= s.rx
                &&& authenticated(s, b) ==> exists|pt: &[u8], out: Option<T>|
                    #![trigger decode.ensures((pt,), out)]
                    pt@ == opened_payload(s.key, b) && decode.ensures((pt,), out) && match out {
                        None => r == Err::<PacketData<T>, Error>(Error::InvalidFormat)
                            && final(self)@ == s,
                        Some(v) => final(self)@ == (EngineView { rx: packet_nonce(b), ..s })
                            && (r matches Ok(p) && p.dst@ == packet_mac(b) && p.flags
                            == packet_flags(b) & FLAGS_MASK && p.payload == v),
                    }
            }),
    {
        let ghost s = self@;
        let ghost b = bytes@;
        let parts = Parts::try_from(&*bytes)?;
        proof {
            lemma_be40_value_roundtrip(packet_raw_nonce(b));
        }
        if parts.nonce() <= self.rx_nonce.counter {
            return Err(Error::Duplicate);
        }
        let mut block_buf = [0u8; 16];
        Self::write_a_block(&mut block_buf, parts.mac, parts.raw_nonce);
        let mut tag = parts.tag;
        crate::ccm::xor_tag(&mut self.aes, &mut tag, &mut block_buf, self.key);
        let ok = crate::ccm::xor_payload(
            &mut self.aes,
            bytes,
            PAYLOAD_OFFSET,
            parts.payload_len,
            &mut block_buf,
            self.key,
        );
        proof {
            assert(b.subrange(12, 12 + parts.payload_len as int) =~= packet_ciphertext(b));
            assert(bytes@ =~= opened_in_place(s.key, b));
        }
        if !ok {
            return Err(Error::AESCounterOverflow);
        }
        assert(bytes@.len() == b.len());
        Self::write_b_block(&mut block_buf, parts.mac, parts.raw_nonce, parts.payload_len);
        let ad_header = AdHeader::new(&parts.mac, parts.flags, &parts.raw_nonce);
        assert(ad_header@ =~= b.subrange(0, 12));
        let expected_tag = self.gen_raw_tag(
            &mut block_buf,
            ad_header,
            &*bytes,
            PAYLOAD_OFFSET,
            parts.payload_len,
        );
        proof {
            assert(bytes@.subrange(12, 12 + parts.payload_len as int) =~= opened_payload(
                s.key,
                b,
            ));
        }
        if !crate::ccm::is_tag_match_const_time(&tag, &expected_tag) {
            return Err(Error::Corrupted);
        }
        let payload_end = bytes.len() - TAG_SIZE;
        let plaintext = slice_subrange(&*bytes, PAYLOAD_OFFSET, payload_end);
        let decoded = decode(plaintext);
        let serialized_payload = match decoded {
            Some(v) => v,
            None => {
                return Err(Error::InvalidFormat);
            },
        };
        let packet_data = PacketData::new(parts.mac.into(), parts.flags, serialized_payload);
        self.rx_nonce.set(parts.nonce());
        Ok(packet_data)
    }

    /// Writes the counter-zero block A0: flags byte 4, address, nonce, zero counter.
    fn write_a_block(buf: &mut [u8; 16], mac: [u8; 6], raw_nonce: [u8; 5])
        ensures
            final(buf)@ == a_block_of(mac@, raw_nonce@),
    {
        *buf = [
            4,
            mac[0],
            mac[1],
            mac[2],
            mac[3],
            mac[4],
            mac[5],
            raw_nonce[0],
            raw_nonce[1],
            raw_nonce[2],
            raw_nonce[3],
            raw_nonce[4],
            0,
            0,
            0,
            0,
        ];
        assert(buf@ =~= a_block_of(mac@, raw_nonce@));
    }

    /// Writes the first authentication block B0: address, flags byte, nonce
    /// and the payload length as a 32-bit big-endian number.
    fn write_b_block(buf: &mut [u8; 16], mac: [u8; 6], raw_nonce: [u8; 5], payload_len: usize)
        ensures
            final(buf)@ == b_block_of(mac@, raw_nonce@, payload_len as u32),
    {
        let len = u32_to_be(#[verifier::truncate] (payload_len as u32));
        *buf = [
            mac[0],
            mac[1],
            mac[2],
            mac[3],
            mac[4],
            mac[5],
            0b0_1_111_011,
            raw_nonce[0],
            raw_nonce[1],
            raw_nonce[2],
            raw_nonce[3],
            raw_nonce[4],
            len[0],
            len[1],
            len[2],
            len[3],
        ];
        assert(buf@ =~= b_block_of(mac@, raw_nonce@, payload_len as u32));
    }

    /// Computes the raw tag of `payload[start..start + len]`: the header
    /// block is the header's length, the header and two zero bytes.
    fn gen_raw_tag(
        &mut self,
        b_block: &mut [u8; 16],
        ad_header: AdHeader,
        payload: &[u8],
        start: usize,
        len: usize,
    ) -> (tag: [u8; 16])
        requires
            start + len <= payload@.len(),
        ensures
            tag@ == cbc_tag(
                old(self)@.key,
                old(b_block)@,
                header_block_of(ad_header@),
                payload@.subrange(start as int, start + len),
            ),
            final(self)@ == old(self)@,
            final(self).driver().calls() == old(self).driver().calls() + cbc_calls(
                old(self)@.key,
                old(b_block)@,
                header_block_of(ad_header@),
                payload@.subrange(start as int, start + len),
            ),
    {
        let size = ad_header.u16_be_len();
        let header = ad_header.deref();
        let padded_header: [u8; 16] = [
            size[0],
            size[1],
            header[0],
            header[1],
            header[2],
            header[3],
            header[4],
            header[5],
            header[6],
            header[7],
            header[8],
            header[9],
            header[10],
            header[11],
            0,
            0,
        ];
        assert(padded_header@ =~= header_block_of(ad_header@));
        crate::ccm::cbc_mac(&mut self.aes, b_block, &padded_header, payload, start, len, self.key)
    }
}

// ---------------------------------------------------------------------------
// Laws
// ---------------------------------------------------------------------------

/// A packet sealed under a key carries the header fields it was sealed
/// with, opens under the same key to the sealed payload, and passes its
/// tag check.
pub proof fn lemma_sealed_packet_opens(
    key: Seq<u8>,
    mac: Seq<u8>,
    flags: u8,
    raw_nonce: Seq<u8>,
    payload: Seq<u8>,
)
    requires
        mac.len() == 6,
        raw_nonce.len() == 5,
        0 < payload.len() <= u32::MAX,
    ensures
        ({
            let b = sealed_packet(key, mac, flags, raw_nonce, payload);
            &&& b.len() == payload.len() + 28
            &&& packet_mac(b) == mac
            &&& packet_flags(b) == flags
            &&& packet_raw_nonce(b) == raw_nonce
            &&& !counter_overflows(b)
            &&& opened_payload(key, b) == payload
            &&& tag_verifies(key, b)
        }),
{
    let b = sealed_packet(key, mac, flags, raw_nonce, payload);
    let header = header_bytes(mac, flags, raw_nonce);
    let a0 = a_block_of(mac, raw_nonce);
    let ct = ctr_xor(key, a0, payload);
    let raw_tag = cbc_tag(
        key,
        b_block_of(mac, raw_nonce, payload.len() as u32),
        header_block_of(header),
        payload,
    );
    let tag = masked_tag(key, a0, raw_tag);
    lemma_ctr_xor_involution(key, a0, payload);
    assert(b == header + ct + tag);
    assert(b.subrange(0, 12) =~= header);
    assert(packet_mac(b) =~= mac);
    assert(packet_raw_nonce(b) =~= raw_nonce);
    assert(packet_ciphertext(b) =~= ct);
    assert(packet_tag(b) =~= tag);
    lemma_cbc_tag_len(
        key,
        b_block_of(mac, raw_nonce, payload.len() as u32),
        header_block_of(header),
        payload,
    );
    lemma_xor_block_involution(raw_tag, aes128_encrypt(key, a0));
}

/// Changing the flags byte, or any byte of the ciphertext, of a sealed
/// packet makes its tag check fail: the engine refuses it as corrupted.
pub proof fn lemma_tampered_packet_fails_tag(
    key: Seq<u8>,
    mac: Seq<u8>,
    flags: u8,
    raw_nonce: Seq<u8>,
    payload: Seq<u8>,
    p: int,
    v: u8,
)
    requires
        mac.len() == 6,
        raw_nonce.len() == 5,
        0 < payload.len() <= u32::MAX,
        p == 6 || HEADER_SIZE <= p < HEADER_SIZE + payload.len(),
        v != sealed_packet(key, mac, flags, raw_nonce, payload)[p],
    ensures
        !tag_verifies(key, sealed_packet(key, mac, flags, raw_nonce, payload).update(p, v)),
{
    let b = sealed_packet(key, mac, flags, raw_nonce, payload);
    lemma_sealed_packet_opens(key, mac, flags, raw_nonce, payload);
    let b2 = b.update(p, v);
    let n = payload.len();
    assert(packet_mac(b2) =~= packet_mac(b));
    assert(packet_raw_nonce(b2) =~= packet_raw_nonce(b));
    assert(packet_tag(b2) =~= packet_tag(b));
    let a0 = a_block_of(packet_mac(b), packet_raw_nonce(b));
    let b0 = b_block_of(packet_mac(b), packet_raw_nonce(b), n as u32);
    let ct1 = packet_ciphertext(b);
    let ct2 = packet_ciphertext(b2);
    assert(ct1.len() == n && ct2.len() == n);
    let p1 = opened_payload(key, b);
    let p2 = opened_payload(key, b2);
    let h1 = header_block_of(b.subrange(0, 12));
    let h2 = header_block_of(b2.subrange(0, 12));
    let m1 = h1 + zero_pad(p1);
    let m2 = h2 + zero_pad(p2);
    lemma_zero_pad_len(p1);
    lemma_zero_pad_len(p2);
    assert(p1.len() == n && p2.len() == n);
    assert(zero_pad(p1).len() == zero_pad(p2).len());
    let q = if p == 6 {
        8
    } else {
        16 + p - 12
    };
    if p == 6 {
        assert(ct2 =~= ct1);
        assert(p2 =~= p1);
        assert(m1[8] == b[6] && m2[8] == v);
    } else {
        let j = p - 12;
        assert(b2.subrange(0, 12) =~= b.subrange(0, 12));
        assert forall|i: int| 0 <= i < n && i != j implies p2[i] == p1[i] by {
            assert(ct2[i] == ct1[i]);
        }
        assert(ct2[j] == v && ct1[j] == b[p]);
        let k = keystream(key, a0, j / 16)[j % 16];
        assert(j / 16 < max_ctr_blocks());
        assert(p1[j] == ct1[j] ^ k && p2[j] == ct2[j] ^ k);
        let (c1, c2) = (ct1[j], ct2[j]);
        assert(c1 ^ k != c2 ^ k) by (bit_vector)
            requires
                c1 != c2,
        ;
    }
    assert forall|i: int| 0 <= i < m1.len() && i != q implies m1[i] == m2[i] by {
        if i >= 16 {
            assert(m1[i] == zero_pad(p1)[i - 16] && m2[i] == zero_pad(p2)[i - 16]);
        }
    }
    lemma_aes128_block_len(key, b0);
    lemma_cbc_chain_one_byte(key, aes128_encrypt(key, b0), m1, m2, q);
}

/// A packet that one engine sends is accepted by an engine with the same
/// key whose last accepted nonce is below the packet's: it passes every
/// check up to its tag and opens to the sent payload.
pub proof fn lemma_sent_packet_authenticates(
    sender: EngineView,
    receiver: EngineView,
    mac: Seq<u8>,
    flags: u8,
    payload: Seq<u8>,
)
    requires
        mac.len() == 6,
        receiver.key == sender.key,
        sender.tx < MAX_5_BYTES,
        receiver.rx <= sender.tx,
        0 < payload.len() <= 68,
    ensures
        ({
            let b = sealed_packet(
                sender.key,
                mac,
                flags,
                be40(sender.tx + 1),
                payload,
            );
            &&& packet_nonce(b) == sender.tx + 1
            &&& authenticated(receiver, b)
            &&& opened_payload(receiver.key, b) == payload
        }),
{
    lemma_be40_roundtrip(sender.tx + 1);
    lemma_sealed_packet_opens(sender.key, mac, flags, be40(sender.tx + 1), payload);
}

/// A packet that one engine sends, with its flags byte or a byte of its
/// ciphertext changed on the way, is never authenticated by an engine that
/// shares the sender's key.
pub proof fn lemma_tampered_sent_packet_refused(
    sender: EngineView,
    receiver: EngineView,
    mac: Seq<u8>,
    flags: u8,
    payload: Seq<u8>,
    p: int,
    v: u8,
)
    requires
        mac.len() == 6,
        receiver.key == sender.key,
        sender.tx < MAX_5_BYTES,
        0 < payload.len() <= u32::MAX,
        p == 6 || HEADER_SIZE <= p < HEADER_SIZE + payload.len(),
        v != sealed_packet(sender.key, mac, flags, be40(sender.tx + 1), payload)[p],
    ensures
        !authenticated(
            receiver,
            sealed_packet(sender.key, mac, flags, be40(sender.tx + 1), payload).update(p, v),
        ),
{
    lemma_be40_roundtrip(sender.tx + 1);
    lemma_tampered_packet_fails_tag(sender.key, mac, flags, be40(sender.tx + 1), payload, p, v);
}

/// A packet whose nonce is not above the last accepted one is refused as a
/// duplicate before anything is decrypted, and every packet that passes the
/// early checks carries a nonce above it.
pub proof fn lemma_stale_nonce_is_duplicate(s: EngineView, b: Seq<u8>)
    ensures
        b.len() > 28 && packet_nonce(b) <= s.rx ==> early_rejection(s, b) == Some(
            Error::Duplicate,
        ),
        early_rejection(s, b) is None ==> b.len() > 28 && packet_nonce(b) > s.rx,
{
}

/// The header of a packet: the address, the flags byte and the 5-byte nonce.
pub proof fn lemma_header_layout(mac: Seq<u8>, flags: u8, raw_nonce: Seq<u8>)
    requires
        mac.len() == 6,
        raw_nonce.len() == 5,
    ensures
        ({
            let h = header_bytes(mac, flags, raw_nonce);
            &&& h.len() == 12
            &&& h.subrange(0, 6) == mac
            &&& h[6] == flags
            &&& h.subrange(7, 12) == raw_nonce
        }),
{
    let h = header_bytes(mac, flags, raw_nonce);
    assert(h.subrange(0, 6) =~= mac);
    assert(h.subrange(7, 12) =~= raw_nonce);
}

/// The encoded associated data: the length 12 as two big-endian bytes, the
/// twelve header bytes in order and two zero bytes, one block in all.
pub proof fn lemma_header_block_layout(h: Seq<u8>)
    requires
        h.len() == 12,
    ensures
        header_block_of(h).len() == 16,
        header_block_of(h)[0] == 0,
        header_block_of(h)[1] == 12,
        header_block_of(h).subrange(2, 14) == h,
        header_block_of(h)[14] == 0,
        header_block_of(h)[15] == 0,
{
    assert(header_block_of(h).subrange(2, 14) =~= h);
}

/// The counter-zero block carries flags byte 4, the address, the whole
/// nonce and a zero counter; the first authentication block carries the
/// address, flags byte `0x7B`, the whole nonce and the big-endian 32-bit
/// payload length.
pub proof fn lemma_block_layouts(mac: Seq<u8>, raw_nonce: Seq<u8>, payload_len: u32)
    requires
        mac.len() == 6,
        raw_nonce.len() == 5,
    ensures
        ({
            let a = a_block_of(mac, raw_nonce);
            &&& a.len() == 16
            &&& a[0] == 4
            &&& a.subrange(1, 7) == mac
            &&& a.subrange(7, 12) == raw_nonce
            &&& a[12] == 0 && a[13] == 0 && a[14] == 0 && a[15] == 0
        }),
        ({
            let b = b_block_of(mac, raw_nonce, payload_len);
            &&& b.len() == 16
            &&& b.subrange(0, 6) == mac
            &&& b[6] == 0x7B
            &&& b.subrange(7, 12) == raw_nonce
            &&& b[12] * 0x100_0000 + b[13] * 0x1_0000 + b[14] * 0x100 + b[15] == payload_len
        }),
{
    let a = a_block_of(mac, raw_nonce);
    let b = b_block_of(mac, raw_nonce, payload_len);
    assert(a.subrange(1, 7) =~= mac);
    assert(a.subrange(7, 12) =~= raw_nonce);
    assert(b.subrange(0, 6) =~= mac);
    assert(b.subrange(7, 12) =~= raw_nonce);
    lemma_be32_roundtrip(payload_len as int);
    assert(b.subrange(12, 16) =~= be32(payload_len as int));
}

} // verus!
