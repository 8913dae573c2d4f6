# mcu_comms

A peer-bound AES-CCM packet channel for microcontrollers, verified with Verus.

- `src/aes.rs` — AES-128 (FIPS-197) as a specification: what every `Encrypt` implementation computes, with the proof that under one key it is one-to-one on blocks.
- `src/ccm.rs` — the `Encrypt` HAL trait (with a ghost log of the blocks the driver is asked to encrypt), the 5-byte packet counter, and the CCM core shared by both engines (CTR keystream, CBC-MAC tag, tag masking, constant-time comparison).
- `src/key_manager.rs` — HKDF-SHA256 epoch keys and the three-key window.
- `src/peer_channel.rs` — frames, packet views, and the `PeerChannel` state machine with epochs, replay protection and resync, plus its laws.
- `src/aesccm.rs` — the single-key engine with a 12-byte header.
- `src/payload_size.rs` — worst-case payload and frame sizes.
- `src/bytes.rs` — big-endian encodings.
- `app/lib.rs` — postcard-based encoding and decoding of payload values around the verified engines.

Payloads cross the verified boundary as bytes: `encrypt` takes the encoded
payload, and `decrypt` hands the authenticated plaintext to a decoder.

Both engines use this protocol's own B0 and A0 block layouts (address
before the flags byte); the CBC-MAC chaining and the CTR keystream follow
CCM, but the blocks are not laid out as RFC 3610 prescribes.
