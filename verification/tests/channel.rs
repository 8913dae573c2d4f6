use aes::cipher::generic_array::GenericArray;
use aes::cipher::{BlockEncrypt, KeyInit};
use aes::Aes128;
use hkdf::Hkdf;
use mcu_comms::peer_channel::{
    AdHeader, Encrypt, Error, MacAddr, PacketData, PacketView, PeerChannel, HEADER_SIZE, TAG_SIZE,
};
use sha2::Sha256;

const ROOT_KEY: [u8; 32] = [7u8; 32];
const HOST: [u8; 6] = [1, 2, 3, 4, 5, 6];
const PEER: [u8; 6] = [6, 5, 4, 3, 2, 1];
const MAX_NONCE: u64 = 0xFF_FF_FF_FF_FF;

#[derive(Debug, Clone)]
struct AesHal;

impl Encrypt for AesHal {
    fn encrypt(&mut self, out_block: &mut [u8; 16], in_block: &mut [u8; 16], key: [u8; 16]) {
        *out_block = aes_block(key, *in_block);
    }
}

fn aes_block(key: [u8; 16], block: [u8; 16]) -> [u8; 16] {
    let aes = Aes128::new(&GenericArray::from(key));
    let mut buf = GenericArray::from(block);
    aes.encrypt_block(&mut buf);
    let mut out = [0u8; 16];
    out.copy_from_slice(&buf);
    out
}

fn epoch_key(root: [u8; 32], epoch: u32) -> [u8; 16] {
    let hk = Hkdf::<Sha256>::new(Some(b"mcu_comms_hkdf_salt_v1_padded32b"), &root);
    let mut info = *b"mcu_comms_epoch_\0\0\0\0_1";
    info[16..20].copy_from_slice(&epoch.to_be_bytes());
    let mut okm = [0u8; 16];
    hk.expand(&info, &mut okm).unwrap();
    okm
}

fn pair() -> (PeerChannel<AesHal>, PeerChannel<AesHal>) {
    let channel = PeerChannel::new(AesHal, ROOT_KEY, MacAddr::from(HOST), MacAddr::from(PEER));
    let peer = PeerChannel::new(AesHal, ROOT_KEY, MacAddr::from(PEER), MacAddr::from(HOST));
    (channel, peer)
}

fn packet(flags: u8, payload: &[u8]) -> PacketData<Vec<u8>> {
    PacketData { flags, payload: payload.to_vec() }
}

fn as_vec(bytes: &[u8]) -> Option<Vec<u8>> {
    Some(bytes.to_vec())
}

/// The CBC-MAC of RFC 3610 over B0, the encoded associated data (length
/// prefix and header, zero-padded to two blocks) and the zero-padded payload.
fn expected_raw_tag(key: [u8; 16], header: &[u8], payload: &[u8]) -> [u8; 16] {
    let mut b0 = [0u8; 16];
    b0[..6].copy_from_slice(&header[..6]);
    b0[6] = 0b0_1_111_001;
    b0[7..12].copy_from_slice(&header[7..12]);
    b0[12..14].copy_from_slice(&(payload.len() as u16).to_be_bytes());
    let mut msg: Vec<u8> = vec![0, 16];
    msg.extend_from_slice(&header[..16]);
    msg.resize(32, 0);
    msg.extend_from_slice(payload);
    while msg.len() % 16 != 0 {
        msg.push(0);
    }
    let mut x = aes_block(key, b0);
    for block in msg.chunks(16) {
        for i in 0..16 {
            x[i] ^= block[i];
        }
        x = aes_block(key, x);
    }
    x
}

fn keystream_block(key: [u8; 16], mac: &[u8], nonce: &[u8], ctr: u32) -> [u8; 16] {
    let mut a = [0u8; 16];
    a[0] = 1;
    a[1..7].copy_from_slice(mac);
    a[7..12].copy_from_slice(nonce);
    a[12..].copy_from_slice(&ctr.to_be_bytes());
    aes_block(key, a)
}

#[test]
fn key_is_hkdf_of_root_key_and_epoch() {
    let (channel, _) = pair();
    assert_eq!(channel.epoch(), 1);
    assert_eq!(channel.key(), epoch_key(ROOT_KEY, 1));
    assert_ne!(channel.key(), epoch_key(ROOT_KEY, 2));
    assert_eq!(channel.key_manager().epoch(), 1);
}

#[test]
fn key_rotates_with_epoch() {
    let (mut channel, _) = pair();
    channel.inc_curr_epoch();
    assert_eq!(channel.epoch(), 2);
    assert_eq!(channel.key(), epoch_key(ROOT_KEY, 2));
    channel.jump_to_epoch(9);
    assert_eq!(channel.epoch(), 9);
    assert_eq!(channel.key(), epoch_key(ROOT_KEY, 9));
}

#[test]
fn sealed_frame_has_exact_ccm_bytes() {
    for len in [0usize, 5, 16, 21, 32, 40, 64] {
        let (mut channel, _) = pair();
        let payload: Vec<u8> = (0..len as u8).map(|b| b.wrapping_mul(37).wrapping_add(11)).collect();
        let frame = channel.encrypt(&packet(0b0010_0101, &payload), 256).unwrap();
        let bytes = frame.bytes();
        assert_eq!(bytes.len(), HEADER_SIZE + len + TAG_SIZE);
        let header = &bytes[..16];
        assert_eq!(&header[..6], &PEER);
        assert_eq!(header[6], 0b0010_0101);
        assert_eq!(&header[7..12], &[0, 0, 0, 0, 1]);
        assert_eq!(&header[12..16], &1u32.to_be_bytes());
        let key = epoch_key(ROOT_KEY, 1);
        for (j, c) in bytes[16..16 + len].iter().enumerate() {
            let ks = keystream_block(key, &PEER, &header[7..12], (j / 16 + 1) as u32);
            assert_eq!(*c, payload[j] ^ ks[j % 16]);
        }
        let raw = expected_raw_tag(key, header, &payload);
        let s0 = keystream_block(key, &PEER, &header[7..12], 0);
        for i in 0..16 {
            assert_eq!(bytes[16 + len + i], raw[i] ^ s0[i]);
        }
    }
}

#[test]
fn packet_view_reads_header_fields() {
    let (mut channel, _) = pair();
    channel.set_tx_nonce(0x01_0203_0405);
    channel.jump_to_epoch(0x0A0B_0C0D);
    let frame = channel.encrypt(&packet(3, &[9, 9, 9]), 64).unwrap();
    let view = PacketView::new(frame.bytes()).unwrap();
    assert_eq!(view.mac(), PEER);
    assert_eq!(view.flags(), 3);
    assert_eq!(view.raw_nonce(), [0x01, 0x02, 0x03, 0x04, 0x06]);
    assert_eq!(view.nonce(), 0x01_0203_0406);
    assert_eq!(view.epoch(), 0x0A0B_0C0D);
    assert!(PacketView::try_from(&frame.bytes()[..31]).is_err());
    assert_eq!(PacketView::new(&[0u8; 31]).err(), Some(Error::InvalidFormat));
}

#[test]
fn decrypt_returns_encrypted_payload() {
    let (mut channel, mut peer) = pair();
    let payload = vec![1u8, 2, 3, 4, 5, 6, 7, 8, 9, 10, 11, 12, 13, 14, 15, 16, 17, 18];
    let mut frame = channel.encrypt(&packet(0x15, &payload), 128).unwrap();
    let received = peer.decrypt(frame.bytes_mut(), as_vec).unwrap();
    assert_eq!(received.flags, 0x15);
    assert_eq!(received.payload, payload);
    assert_eq!(peer.rx_nounce(), 1);
    assert!(peer.is_peer_synced());
    assert_eq!(&frame.bytes()[16..16 + payload.len()], &payload[..]);
}

#[test]
fn replayed_packet_is_duplicate() {
    let (mut channel, mut peer) = pair();
    let frame = channel.encrypt(&packet(1, &[42]), 64).unwrap();
    let mut first = frame.bytes().to_vec();
    let mut replay = frame.bytes().to_vec();
    assert!(peer.decrypt(&mut first, as_vec).is_ok());
    assert_eq!(peer.decrypt(&mut replay, as_vec).err(), Some(Error::Duplicate));
    assert_eq!(replay, frame.bytes().to_vec(), "a refused packet is left as it was");
}

#[test]
fn older_nonce_is_duplicate_once_synced() {
    let (mut channel, mut peer) = pair();
    let older = channel.encrypt(&packet(1, &[1]), 64).unwrap();
    let newer = channel.encrypt(&packet(1, &[2]), 64).unwrap();
    assert!(peer.decrypt(&mut newer.bytes().to_vec(), as_vec).is_ok());
    assert_eq!(
        peer.decrypt(&mut older.bytes().to_vec(), as_vec).err(),
        Some(Error::Duplicate)
    );
}

#[test]
fn tampered_packet_fails_authentication() {
    let (mut channel, mut peer) = pair();
    let frame = channel.encrypt(&packet(1, &[10, 20, 30]), 64).unwrap();
    for i in [6usize, 10, 14, 17, 19, 30] {
        let mut bytes = frame.bytes().to_vec();
        bytes[i] ^= 0x01;
        assert_eq!(peer.decrypt(&mut bytes, as_vec).err(), Some(Error::Authentication));
    }
    assert_eq!(peer.rx_nounce(), 0);
    assert!(!peer.is_peer_synced());
    assert!(peer.decrypt(&mut frame.bytes().to_vec(), as_vec).is_ok());
}

#[test]
fn wrong_destination_is_invalid_mac() {
    let (mut channel, _) = pair();
    let mut other = PeerChannel::new(AesHal, ROOT_KEY, MacAddr::new(9, 9, 9, 9, 9, 9), MacAddr::from(HOST));
    let frame = channel.encrypt(&packet(1, &[1]), 64).unwrap();
    assert_eq!(other.decrypt(&mut frame.bytes().to_vec(), as_vec).err(), Some(Error::InvalidMac));
}

#[test]
fn short_packet_is_invalid_format() {
    let (_, mut peer) = pair();
    let mut bytes = vec![0u8; 31];
    assert_eq!(peer.decrypt(&mut bytes, as_vec).err(), Some(Error::InvalidFormat));
}

#[test]
fn undecodable_payload_is_invalid_format_and_keeps_rx() {
    let (mut channel, mut peer) = pair();
    let frame = channel.encrypt(&packet(1, &[1, 2]), 64).unwrap();
    let r = peer.decrypt(&mut frame.bytes().to_vec(), |_: &[u8]| -> Option<u8> { None });
    assert_eq!(r.err(), Some(Error::InvalidFormat));
    assert_eq!(peer.rx_nounce(), 1, "the first packet of the epoch still syncs the peer");
    assert!(peer.is_peer_synced());
    let later = channel.encrypt(&packet(1, &[3]), 64).unwrap();
    let r = peer.decrypt(&mut later.bytes().to_vec(), |_: &[u8]| -> Option<u8> { None });
    assert_eq!(r.err(), Some(Error::InvalidFormat));
    assert_eq!(peer.rx_nounce(), 1, "an undecodable packet does not advance the receive nonce");
}

#[test]
fn reserved_flags_on_receive_give_reserved_bit_override() {
    let (mut channel, mut peer) = pair();
    let frame = channel.encrypt(&packet(0b0100_0001, &[1]), 64).unwrap();
    let r = peer.decrypt(&mut frame.bytes().to_vec(), as_vec);
    assert_eq!(r.err(), Some(Error::ReservedBitOverride));
    assert_eq!(peer.rx_nounce(), 1);
}

#[test]
fn resync_packet_gives_successful_resync() {
    let (mut channel, mut peer) = pair();
    let frame = channel.encrypt(&packet(0b1000_0000, &[]), 32).unwrap();
    let r = peer.decrypt(&mut frame.bytes().to_vec(), as_vec);
    assert_eq!(r.err(), Some(Error::SuccessfulResync));
    assert!(peer.is_peer_synced());
}

#[test]
fn nonce_exhaustion_advances_epoch() {
    let (mut channel, mut peer) = pair();
    channel.set_tx_nonce(MAX_NONCE);
    let frame = channel.encrypt(&packet(1, &[5]), 64).unwrap();
    assert_eq!(channel.epoch(), 2);
    assert_eq!(channel.tx_nounce(), 0);
    assert!(!channel.is_peer_synced());
    let view = PacketView::new(frame.bytes()).unwrap();
    assert_eq!(view.nonce(), 0);
    assert_eq!(view.epoch(), 2);
    let received = peer.decrypt(&mut frame.bytes().to_vec(), as_vec).unwrap();
    assert_eq!(received.payload, vec![5]);
    assert_eq!(peer.epoch(), 2);
    assert_eq!(peer.tx_nounce(), 0);
    assert_eq!(peer.rx_nounce(), 0);
}

#[test]
fn epoch_exhaustion_leaves_state() {
    let (mut channel, _) = pair();
    channel.jump_to_epoch(u32::MAX);
    channel.set_tx_nonce(MAX_NONCE);
    assert_eq!(channel.encrypt(&packet(1, &[5]), 64).err(), Some(Error::EpochExhaustion));
    assert_eq!(channel.epoch(), u32::MAX);
    assert_eq!(channel.tx_nounce(), MAX_NONCE);
}

#[test]
fn encrypt_errors_follow_frame_size() {
    let (mut channel, _) = pair();
    assert_eq!(channel.encrypt(&packet(1, &[1; 5]), 10).err(), Some(Error::BufferOverflow));
    assert_eq!(channel.encrypt(&packet(1, &[1; 5]), 20).err(), Some(Error::PostcardError));
    assert_eq!(channel.encrypt(&packet(1, &[1; 5]), 36).err(), Some(Error::BufferOverflow));
    assert_eq!(channel.tx_nounce(), 3, "each attempt consumed a nonce");
    let frame = channel.encrypt(&packet(1, &[1; 5]), 37).unwrap();
    assert_eq!(frame.bytes().len(), 37);
}

#[test]
fn oversized_payload_is_length_prefix_overflow() {
    let (mut channel, _) = pair();
    let payload = vec![0u8; 65536];
    assert_eq!(
        channel.encrypt(&packet(1, &payload), 70000).err(),
        Some(Error::LengthPrefixOverflow)
    );
    let payload = vec![0u8; 65535];
    assert!(channel.encrypt(&packet(1, &payload), 70000).is_ok());
}

#[test]
fn send_position_never_decreases() {
    let (mut channel, mut peer) = pair();
    let mut last = (channel.epoch(), channel.tx_nounce());
    for _ in 0..5 {
        let frame = channel.encrypt(&packet(1, &[0]), 64).unwrap();
        let view = PacketView::new(frame.bytes()).unwrap();
        let now = (channel.epoch(), channel.tx_nounce());
        assert!(now > last);
        assert_eq!((view.epoch(), view.nonce()), now);
        last = now;
    }
    peer.jump_to_epoch(3);
    peer.set_tx_nonce(40);
    let frame = peer.encrypt(&packet(1, &[0]), 64).unwrap();
    channel.decrypt(&mut frame.bytes().to_vec(), as_vec).unwrap();
    let now = (channel.epoch(), channel.tx_nounce());
    assert_eq!(now, (3, 0));
    assert!(now > last);
}

#[test]
fn packet_from_previous_epoch_is_accepted_without_moving_back() {
    let (mut channel, mut peer) = pair();
    let old = channel.encrypt(&packet(1, &[1]), 64).unwrap();
    peer.inc_curr_epoch();
    let r = peer.decrypt(&mut old.bytes().to_vec(), as_vec).unwrap();
    assert_eq!(r.payload, vec![1]);
    assert_eq!(peer.epoch(), 2);
    assert!(!peer.is_peer_synced());
}

#[test]
fn jump_to_epoch_ignores_older_epochs() {
    let (mut channel, _) = pair();
    channel.jump_to_epoch(5);
    channel.jump_to_epoch(3);
    assert_eq!(channel.epoch(), 5);
    assert_eq!(channel.key(), epoch_key(ROOT_KEY, 5));
}

#[test]
fn test_setters_set_counters() {
    let (mut channel, _) = pair();
    channel.set_raw_tx_nonce([0, 0, 0, 1, 2]);
    assert_eq!(channel.tx_nounce(), 258);
    channel.set_rx_nonce(77);
    assert_eq!(channel.rx_nounce(), 77);
}

#[test]
fn mac_addresses() {
    assert_eq!(*MacAddr::default(), [0xFF; 6]);
    assert_eq!(*MacAddr::peer(), [0xEE; 6]);
    assert_eq!(*MacAddr::new(1, 2, 3, 4, 5, 6), [1, 2, 3, 4, 5, 6]);
    assert_eq!(*MacAddr::from([6, 5, 4, 3, 2, 1]), [6, 5, 4, 3, 2, 1]);
    assert_eq!(MacAddr::from(HOST).octets(), HOST);
}

#[test]
fn ad_header_layout() {
    let h = AdHeader::new(&[1, 2, 3, 4, 5, 6], 7, &[8, 9, 10, 11, 12], 0x0D0E0F10);
    assert_eq!(*h, [1, 2, 3, 4, 5, 6, 7, 8, 9, 10, 11, 12, 13, 14, 15, 16]);
}

#[test]
fn frame_sized_for_payload_holds_largest_payload() {
    let (mut channel, _) = pair();
    let max_size = 9usize;
    let frame_size = mcu_comms::payload_size::frame_size(max_size).unwrap();
    let frame = channel.encrypt(&packet(1, &[0xAB; 9]), frame_size).unwrap();
    assert_eq!(frame.bytes().len(), frame_size);
}

#[test]
fn previous_epoch_packet_is_not_accepted_twice() {
    let (mut channel, mut peer) = pair();
    let old = channel.encrypt(&packet(1, &[4]), 64).unwrap();
    peer.inc_curr_epoch();
    assert!(peer.decrypt(&mut old.bytes().to_vec(), as_vec).is_ok());
    assert_eq!(
        peer.decrypt(&mut old.bytes().to_vec(), as_vec).err(),
        Some(Error::Duplicate)
    );
    let newer = channel.encrypt(&packet(1, &[5]), 64).unwrap();
    assert_eq!(peer.decrypt(&mut newer.bytes().to_vec(), as_vec).unwrap().payload, vec![5]);
    assert_eq!(peer.epoch(), 2);
}

#[test]
fn current_epoch_packet_is_refused_after_the_window_moves_on() {
    let (mut channel, mut peer) = pair();
    let first = channel.encrypt(&packet(1, &[1]), 64).unwrap();
    assert!(peer.decrypt(&mut first.bytes().to_vec(), as_vec).is_ok());
    channel.inc_curr_epoch();
    let next = channel.encrypt(&packet(1, &[2]), 64).unwrap();
    assert!(peer.decrypt(&mut next.bytes().to_vec(), as_vec).is_ok());
    assert_eq!(peer.epoch(), 2);
    assert!(peer.is_peer_synced());
    assert_eq!(
        peer.decrypt(&mut first.bytes().to_vec(), as_vec).err(),
        Some(Error::Duplicate)
    );
    assert_eq!(
        peer.decrypt(&mut next.bytes().to_vec(), as_vec).err(),
        Some(Error::Duplicate)
    );
}

#[test]
fn window_at_epoch_zero_accepts_current_packets() {
    let (mut channel, mut peer) = pair();
    channel.jump_to_epoch(u32::MAX);
    channel.inc_curr_epoch();
    peer.jump_to_epoch(u32::MAX);
    peer.inc_curr_epoch();
    assert_eq!(channel.epoch(), 0);
    assert_eq!(peer.epoch(), 0);
    let frame = channel.encrypt(&packet(1, &[7]), 64).unwrap();
    assert_eq!(peer.decrypt(&mut frame.bytes().to_vec(), as_vec).unwrap().payload, vec![7]);
    assert_eq!(peer.epoch(), 0);
}

#[test]
fn chained_blocks_detect_paired_bit_flips() {
    let (mut channel, mut peer) = pair();
    let payload = [0x5Au8; 64];
    let frame = channel.encrypt(&packet(1, &payload), 128).unwrap();
    let mut bytes = frame.bytes().to_vec();
    bytes[16 + 16] ^= 1;
    bytes[16 + 32] ^= 1;
    assert_eq!(peer.decrypt(&mut bytes, as_vec).err(), Some(Error::Authentication));
    assert_eq!(peer.rx_nounce(), 0);
}

#[test]
fn flipped_flags_byte_fails_authentication() {
    let (mut channel, mut peer) = pair();
    let frame = channel.encrypt(&packet(0b0000_0001, &[1, 2, 3]), 64).unwrap();
    let mut bytes = frame.bytes().to_vec();
    bytes[6] ^= 0b0000_0010;
    assert_eq!(peer.decrypt(&mut bytes, as_vec).err(), Some(Error::Authentication));
    let mut bytes = frame.bytes().to_vec();
    bytes[16 + 2] ^= 0x80;
    assert_eq!(peer.decrypt(&mut bytes, as_vec).err(), Some(Error::Authentication));
    assert_eq!(peer.decrypt(&mut frame.bytes().to_vec(), as_vec).unwrap().payload, vec![1, 2, 3]);
}
