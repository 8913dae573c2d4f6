pub use crate::payload_size::{MaxPayloadSize, MaxSize, Payload};
pub use crate::peer_channel::{
    Encrypt, Error, Frame, MacAddr, PacketData, PacketView, PeerChannel,
};
pub use serde;
