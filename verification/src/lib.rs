//! A lightweight AES-CCM communication layer for resource-constrained
//! microcontrollers: framing, authenticated packet encryption, replay
//! protection and HKDF-based epoch key rotation between two fixed peers.
pub mod aes;
pub mod aesccm;
pub mod bytes;
pub mod ccm;
pub mod key_manager;
pub mod payload_size;
pub mod peer_channel;
pub mod prelude;

pub use crate::payload_size::{MaxPayloadSize, MaxSize, Payload};
pub use peer_channel::{Encrypt, Frame, MacAddr, PacketData, PacketView, PeerChannel};
pub use serde;
