//! Hop-by-hop re-encryption relay: fixed-size blocks are encrypted under a
//! per-link symmetric key, framed with a one-byte key-id header, and each
//! relay decrypts under the upstream link's key and re-encrypts under its
//! downstream link's current key. A side channel rotates keys; old ids stay
//! usable because chunks already in flight still reference them.
use vstd::prelude::*;

mod block_cipher;
pub mod codec;
pub mod keystore;
pub mod pipeline;

verus! {

/// Number of bytes of key material for one link key.
pub const KEY_LEN: usize = 16;

/// Number of bytes of one plaintext or ciphertext block.
pub const BLOCK_LEN: usize = 16;

/// Number of bytes of one wire frame: a key-id byte and one ciphertext block.
pub const FRAME_LEN: usize = 17;

/// Everything that can go wrong while handling keys, chunks and frames.
#[derive(Clone, Copy, Debug, PartialEq, Eq, Structural)]
pub enum RelayError {
    /// A chunk references a key id that was never installed on this link.
    KeyNotFound,
    /// A rotation message cannot serve as key material.
    MalformedKeyMaterial,
    /// A key id does not fit the one-byte wire header.
    KeyIdOutOfRange,
    /// A received byte sequence is not exactly one frame.
    MalformedFrame,
}

} // verus!
