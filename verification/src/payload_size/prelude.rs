pub use crate::payload_size::{MaxPayloadSize, MaxSize, Payload};
