use aes::cipher::generic_array::GenericArray;
use aes::cipher::{BlockEncrypt, KeyInit};
use aes::Aes128;
use mcu_comms::aesccm::{AdHeader, Encrypt, Error, MacAddr, PacketData, PacketView, AESCCM};

const KEY: [u8; 16] = [0x2b; 16];

#[derive(Debug, Clone)]
struct AesHal;

impl Encrypt for AesHal {
    fn encrypt(&mut self, out_block: &mut [u8; 16], in_block: &mut [u8; 16], key: [u8; 16]) {
        *out_block = aes_block(key, *in_block);
    }
}

fn aes_block(key: [u8; 16], block: [u8; 16]) -> [u8; 16] {
    let aes = Aes128::new(&GenericArray::from(key));
    let mut buf = GenericArray::from(block);
    aes.encrypt_block(&mut buf);
    let mut out = [0u8; 16];
    out.copy_from_slice(&buf);
    out
}

fn as_vec(bytes: &[u8]) -> Option<Vec<u8>> {
    Some(bytes.to_vec())
}

fn packet(flags: u8, payload: &[u8]) -> PacketData<Vec<u8>> {
    PacketData { dst: MacAddr::new(1, 2, 3, 4, 5, 6), flags, payload: payload.to_vec() }
}

#[test]
fn engine_roundtrip_returns_payload_and_address() {
    let mut sender = AESCCM::new(AesHal, KEY);
    let mut receiver = AESCCM::new(AesHal, KEY);
    let payload: Vec<u8> = (0..40u8).collect();
    let mut frame = sender.encrypt(&packet(0x21, &payload)).unwrap();
    assert_eq!(frame.bytes().len(), 12 + 40 + 16);
    let received = receiver.decrypt(frame.bytes_mut(), as_vec).unwrap();
    assert_eq!(received.payload, payload);
    assert_eq!(received.flags, 0x21);
    assert_eq!(received.dst, MacAddr::new(1, 2, 3, 4, 5, 6));
}

#[test]
fn engine_ciphertext_is_payload_xor_keystream() {
    let mut sender = AESCCM::new(AesHal, KEY);
    let payload = [5u8, 6, 7];
    let frame = sender.encrypt(&packet(1, &payload)).unwrap();
    let bytes = frame.bytes();
    assert_eq!(&bytes[..12], &[1, 2, 3, 4, 5, 6, 1, 0, 0, 0, 0, 1]);
    let mut a1 = [0u8; 16];
    a1[0] = 4;
    a1[1..7].copy_from_slice(&[1, 2, 3, 4, 5, 6]);
    a1[11] = 1;
    a1[15] = 1;
    let ks = aes_block(KEY, a1);
    for i in 0..3 {
        assert_eq!(bytes[12 + i], payload[i] ^ ks[i]);
    }
}

#[test]
fn engine_replay_is_duplicate() {
    let mut sender = AESCCM::new(AesHal, KEY);
    let mut receiver = AESCCM::new(AesHal, KEY);
    let frame = sender.encrypt(&packet(1, &[9])).unwrap();
    assert!(receiver.decrypt(&mut frame.bytes().to_vec(), as_vec).is_ok());
    assert_eq!(
        receiver.decrypt(&mut frame.bytes().to_vec(), as_vec).err(),
        Some(Error::Duplicate)
    );
}

#[test]
fn engine_tampering_is_corrupted() {
    let mut sender = AESCCM::new(AesHal, KEY);
    let mut receiver = AESCCM::new(AesHal, KEY);
    let frame = sender.encrypt(&packet(1, &[9, 8])).unwrap();
    let mut bytes = frame.bytes().to_vec();
    bytes[12] ^= 0x80;
    assert_eq!(receiver.decrypt(&mut bytes, as_vec).err(), Some(Error::Corrupted));
    let mut other = AESCCM::new(AesHal, [0u8; 16]);
    assert_eq!(
        other.decrypt(&mut frame.bytes().to_vec(), as_vec).err(),
        Some(Error::Corrupted)
    );
}

#[test]
fn engine_short_packet_is_invalid_format() {
    let mut receiver = AESCCM::new(AesHal, KEY);
    assert_eq!(receiver.decrypt(&mut vec![0u8; 28], as_vec).err(), Some(Error::InvalidFormat));
    let mut sender = AESCCM::new(AesHal, KEY);
    let frame = sender.encrypt(&packet(1, &[])).unwrap();
    assert_eq!(frame.bytes().len(), 28);
    assert_eq!(
        receiver.decrypt(&mut frame.bytes().to_vec(), as_vec).err(),
        Some(Error::InvalidFormat)
    );
}

#[test]
fn engine_undecodable_payload_is_invalid_format() {
    let mut sender = AESCCM::new(AesHal, KEY);
    let mut receiver = AESCCM::new(AesHal, KEY);
    let frame = sender.encrypt(&packet(1, &[1])).unwrap();
    let r = receiver.decrypt(&mut frame.bytes().to_vec(), |_: &[u8]| -> Option<u8> { None });
    assert_eq!(r.err(), Some(Error::InvalidFormat));
    assert!(receiver.decrypt(&mut frame.bytes().to_vec(), as_vec).is_ok());
}

#[test]
fn engine_payload_capacity() {
    let mut sender = AESCCM::new(AesHal, KEY);
    assert!(sender.encrypt(&packet(1, &[0u8; 68])).is_ok());
    assert_eq!(sender.encrypt(&packet(1, &[0u8; 69])).err(), Some(Error::BufferOverflow));
}

#[test]
fn engine_packet_data_clears_reserved_bits() {
    let p = PacketData::new(MacAddr::default(), 0b1111_0000, 3u8);
    assert_eq!(p.flags, 0b0011_0000);
    assert_eq!(p.dst, MacAddr::from([0xFF; 6]));
    assert_eq!(p.payload, 3);
}

#[test]
fn engine_packet_view_and_header() {
    let mut sender = AESCCM::new(AesHal, KEY);
    let frame = sender.encrypt(&packet(9, &[1, 2])).unwrap();
    let view = PacketView::new(frame.bytes()).unwrap();
    assert_eq!(view.mac(), [1, 2, 3, 4, 5, 6]);
    assert_eq!(view.flags(), 9);
    assert_eq!(view.raw_nonce(), [0, 0, 0, 0, 1]);
    assert_eq!(view.nonce(), 1);
    assert!(PacketView::new(&[0u8; 28]).is_err());
    let h = AdHeader::new(&[1, 2, 3, 4, 5, 6], 7, &[8, 9, 10, 11, 12]);
    assert_eq!(*h, [1, 2, 3, 4, 5, 6, 7, 8, 9, 10, 11, 12]);
    let padded = [0, 12, 1, 2, 3, 4, 5, 6, 7, 8, 9, 10, 11, 12, 0, 0];
    assert_eq!(*AdHeader::from(padded), [1, 2, 3, 4, 5, 6, 7, 8, 9, 10, 11, 12]);
}

#[test]
fn engine_tag_is_ccm_cbc_mac() {
    for len in [0usize, 3, 16, 20, 32, 64] {
        let mut sender = AESCCM::new(AesHal, KEY);
        let payload: Vec<u8> = (0..len as u8).map(|b| b.wrapping_mul(13).wrapping_add(7)).collect();
        let frame = sender.encrypt(&packet(1, &payload)).unwrap();
        let bytes = frame.bytes();
        assert_eq!(bytes.len(), 12 + len + 16);
        let mut b0 = [0u8; 16];
        b0[..6].copy_from_slice(&[1, 2, 3, 4, 5, 6]);
        b0[6] = 0b0_1_111_011;
        b0[7..12].copy_from_slice(&bytes[7..12]);
        b0[12..].copy_from_slice(&(len as u32).to_be_bytes());
        let mut msg: Vec<u8> = vec![0, 12];
        msg.extend_from_slice(&bytes[..12]);
        msg.resize(16, 0);
        msg.extend_from_slice(&payload);
        while msg.len() % 16 != 0 {
            msg.push(0);
        }
        let mut x = aes_block(KEY, b0);
        for block in msg.chunks(16) {
            for i in 0..16 {
                x[i] ^= block[i];
            }
            x = aes_block(KEY, x);
        }
        let mut a0 = [0u8; 16];
        a0[0] = 4;
        a0[1..7].copy_from_slice(&[1, 2, 3, 4, 5, 6]);
        a0[7..12].copy_from_slice(&bytes[7..12]);
        let s0 = aes_block(KEY, a0);
        for i in 0..16 {
            assert_eq!(bytes[12 + len + i], x[i] ^ s0[i]);
        }
    }
}

#[test]
fn engine_detects_paired_bit_flips() {
    let mut sender = AESCCM::new(AesHal, KEY);
    let mut receiver = AESCCM::new(AesHal, KEY);
    let frame = sender.encrypt(&packet(1, &[0x33; 64])).unwrap();
    let mut bytes = frame.bytes().to_vec();
    bytes[12 + 16] ^= 1;
    bytes[12 + 32] ^= 1;
    assert_eq!(receiver.decrypt(&mut bytes, as_vec).err(), Some(Error::Corrupted));
}

#[test]
fn engine_flipped_flags_byte_is_corrupted() {
    let mut sender = AESCCM::new(AesHal, KEY);
    let mut receiver = AESCCM::new(AesHal, KEY);
    let frame = sender.encrypt(&packet(1, &[4, 5, 6])).unwrap();
    let mut bytes = frame.bytes().to_vec();
    bytes[6] ^= 0b0000_0100;
    assert_eq!(receiver.decrypt(&mut bytes, as_vec).err(), Some(Error::Corrupted));
    let mut bytes = frame.bytes().to_vec();
    bytes[12 + 1] ^= 1;
    assert_eq!(receiver.decrypt(&mut bytes, as_vec).err(), Some(Error::Corrupted));
    assert_eq!(receiver.decrypt(&mut frame.bytes().to_vec(), as_vec).unwrap().payload, vec![4, 5, 6]);
}
