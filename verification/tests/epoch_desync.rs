use aes::cipher::generic_array::GenericArray;
use aes::cipher::{BlockEncrypt, KeyInit};
use aes::Aes128;
use mcu_comms::payload_size::{frame_size, max_size, MaxPayloadSize, MaxSize, Payload, PayloadShape};
use mcu_comms::peer_channel::{Encrypt, Error, Frame, MacAddr, PacketData, PeerChannel};

const PEER_START_TX: u64 = 1234;
const CHANNEL_START_TX: u64 = 123456;
const EPOCH_WINDOW: usize = 1;
const ROOT_KEY: [u8; 32] = [0u8; 32];
const REG_FLAGS: u8 = 0b00_11_1111;

#[derive(Debug, Clone)]
struct AesHal;

impl Encrypt for AesHal {
    fn encrypt(&mut self, out_block: &mut [u8; 16], in_block: &mut [u8; 16], key: [u8; 16]) {
        let aes = Aes128::new(&GenericArray::from(key));
        let mut buf = GenericArray::from(*in_block);
        aes.encrypt_block(&mut buf);
        out_block.copy_from_slice(&buf);
    }
}

#[derive(Debug, PartialEq, Eq, Clone, Copy)]
enum TempType {
    C,
    F,
}

#[derive(Debug, PartialEq, Eq, Clone)]
struct Sensor {
    temp: i16,
    temp_type: TempType,
    bat_low: bool,
}

impl Default for Sensor {
    fn default() -> Self {
        Self { temp: 20, temp_type: TempType::C, bat_low: false }
    }
}

impl MaxSize for Sensor {
    const MAX_SIZE: usize = <i16 as MaxSize>::MAX_SIZE + 5 + <bool as MaxSize>::MAX_SIZE;
}

impl MaxPayloadSize for Sensor {
    const FRAME_SIZE: usize = <Sensor as MaxSize>::MAX_SIZE + 16 + 16;
}

impl Payload for Sensor {}

fn encode_sensor(s: &Sensor) -> Vec<u8> {
    let kind: u32 = match s.temp_type {
        TempType::C => 0,
        TempType::F => 1,
    };
    postcard::to_allocvec(&(s.temp, kind, s.bat_low)).unwrap()
}

fn decode_sensor(bytes: &[u8]) -> Option<Sensor> {
    let (temp, kind, bat_low): (i16, u32, bool) = postcard::from_bytes(bytes).ok()?;
    let temp_type = match kind {
        0 => TempType::C,
        1 => TempType::F,
        _ => return None,
    };
    Some(Sensor { temp, temp_type, bat_low })
}

fn send_frame_to(mut frame: Frame, receiver: &mut PeerChannel<AesHal>) -> Result<PacketData<Sensor>, Error> {
    receiver.decrypt(frame.bytes_mut(), decode_sensor)
}

fn send_regular_frame(
    sender: &mut PeerChannel<AesHal>,
    receiver: &mut PeerChannel<AesHal>,
) -> Result<PacketData<Sensor>, Error> {
    let packet_data = PacketData::new(REG_FLAGS, Sensor::default())?;
    let serialized = PacketData { flags: packet_data.flags, payload: encode_sensor(&packet_data.payload) };
    let mut frame = sender.encrypt(&serialized, <Sensor as MaxPayloadSize>::FRAME_SIZE)?;
    receiver.decrypt(frame.bytes_mut(), decode_sensor)
}

fn setup_synced_pair() -> (PeerChannel<AesHal>, PeerChannel<AesHal>) {
    let mut channel = PeerChannel::new(AesHal, ROOT_KEY, MacAddr::default(), MacAddr::peer());
    let mut peer_channel = PeerChannel::new(AesHal, ROOT_KEY, MacAddr::peer(), MacAddr::default());
    channel.set_tx_nonce(CHANNEL_START_TX);
    channel.set_rx_nonce(PEER_START_TX);
    peer_channel.set_tx_nonce(PEER_START_TX);
    peer_channel.set_rx_nonce(CHANNEL_START_TX);
    send_regular_frame(&mut peer_channel, &mut channel).unwrap();
    (channel, peer_channel)
}

fn setup_desynced_pair() -> (PeerChannel<AesHal>, PeerChannel<AesHal>) {
    let (mut channel, peer_channel) = setup_synced_pair();
    channel.inc_curr_epoch();
    (channel, peer_channel)
}

fn setup_stale_epoch_pair() -> (PeerChannel<AesHal>, PeerChannel<AesHal>) {
    let (mut channel, peer_channel) = setup_synced_pair();
    for _ in 0..=EPOCH_WINDOW {
        channel.inc_curr_epoch();
    }
    (channel, peer_channel)
}

#[test]
fn epoch_bump_desyncs_peer() {
    let (mut channel, _peer) = setup_synced_pair();
    assert!(channel.is_peer_synced());

    channel.inc_curr_epoch();

    assert!(!channel.is_peer_synced());
}

#[test]
fn resync_after_packet_loss() {
    let (mut channel, mut peer_channel) = setup_desynced_pair();

    // simulate lost packets: tx jumps ahead without peer seeing intermediate frames
    channel.set_tx_nonce(12);

    send_regular_frame(&mut channel, &mut peer_channel).unwrap();

    assert_eq!(peer_channel.epoch(), 2, "peer should adopt new epoch on resync frame");
    assert_eq!(peer_channel.rx_nounce(), 13);
    assert!(
        !channel.is_peer_synced(),
        "channel doesn't know peer synced until it hears back"
    );

    send_regular_frame(&mut peer_channel, &mut channel).unwrap();

    assert!(channel.is_peer_synced());
}

#[test]
fn resync_after_out_of_window() {
    // the peer's channel is the stale one
    let (mut channel, mut peer_channel) = setup_stale_epoch_pair();

    let resync_frame = match send_regular_frame(&mut peer_channel, &mut channel) {
        Err(Error::PeerDesynced(frame)) => frame,
        _ => panic!("a peer out of window should return a resync and not be accepted"),
    };

    match send_frame_to(resync_frame, &mut peer_channel) {
        Err(Error::SuccessfulResync) => (),
        _ => panic!("no actual errors or packetdata should be returned from a resync frame"),
    };

    assert_eq!(channel.epoch(), peer_channel.epoch());

    assert!(
        !channel.is_peer_synced(),
        "channel doesn't know peer synced until it hears back"
    );
    send_regular_frame(&mut peer_channel, &mut channel).unwrap();
    assert!(
        channel.is_peer_synced(),
        "channel should be synced since it heard back from peer"
    );
}

#[test]
fn sensor_sizes_match_the_size_rules() {
    let temp_type = max_size(&PayloadShape::Enum(vec![vec![], vec![]])).unwrap();
    let fields = vec![<i16 as MaxSize>::MAX_SIZE, temp_type, <bool as MaxSize>::MAX_SIZE];
    let sensor = max_size(&PayloadShape::Struct(fields)).unwrap();
    assert_eq!(<Sensor as MaxSize>::MAX_SIZE, sensor);
    assert_eq!(<Sensor as MaxPayloadSize>::FRAME_SIZE, frame_size(sensor).unwrap());
}
