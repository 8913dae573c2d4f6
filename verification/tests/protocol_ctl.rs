use mcu_comms::peer_channel::{Error, PacketData};

const RESYNC_FLAG: u8 = 0b1000_0000;
const RESERVED_FLAG: u8 = 0b0100_0000;
const REG_FLAGS: u8 = 0b00_11_1111;

#[derive(Debug, PartialEq, Eq, Clone)]
struct Sensor {
    temp: i16,
    bat_low: bool,
}

impl Default for Sensor {
    fn default() -> Self {
        Self { temp: 20, bat_low: false }
    }
}

#[test]
fn bit_override() {
    assert!(PacketData::new(RESYNC_FLAG, Sensor::default()).is_err());

    assert!(PacketData::new(RESERVED_FLAG, Sensor::default()).is_err());

    assert!(PacketData::new(RESERVED_FLAG | RESYNC_FLAG, Sensor::default()).is_err());

    assert!(PacketData::new(REG_FLAGS, Sensor::default()).is_ok());
}

#[test]
fn reserved_bits_give_reserved_bit_override() {
    assert_eq!(
        PacketData::new(RESERVED_FLAG, 1u8).unwrap_err(),
        Error::ReservedBitOverride
    );
    let p = PacketData::new(0b0010_0100, 7u8).unwrap();
    assert_eq!(p.flags, 0b0010_0100);
    assert_eq!(p.payload, 7u8);
}
