//! Chunk codec and wire framing. A chunk is one ciphertext block tagged with
//! the low byte of the key id that encrypted it; on the wire it is the key-id
//! byte followed by the block. Encryption is single-block and unchained, so
//! every chunk can carry its own key id and be decrypted independently.
use vstd::prelude::*;

use crate::BLOCK_LEN;
use crate::FRAME_LEN;
use crate::KEY_LEN;
use crate::RelayError;
use crate::block_cipher::aes128_dec;
use crate::block_cipher::aes128_decrypt_block;
use crate::block_cipher::aes128_enc;
use crate::block_cipher::aes128_encrypt_block;

verus! {

/// One transient wire chunk: the key-id byte and one encrypted block.
pub struct Chunk {
    pub key_id: u8,
    pub payload: Vec<u8>,
}

impl Chunk {
    /// The payload is exactly one cipher block.
    pub open spec fn wf(&self) -> bool {
        self.payload@.len() == BLOCK_LEN
    }
}

/// The wire form of a chunk: its key-id byte, then its ciphertext block.
pub open spec fn frame_spec(key_id: u8, payload: Seq<u8>) -> Seq<u8> {
    seq![key_id].add(payload)
}

/// What a received byte sequence parses to: its key-id byte and ciphertext
/// block, or nothing when it is not exactly one frame long.
pub open spec fn parse_spec(bytes: Seq<u8>) -> Option<(u8, Seq<u8>)> {
    if bytes.len() == FRAME_LEN {
        Some((bytes[0], bytes.subrange(1, FRAME_LEN as int)))
    } else {
        None
    }
}

/// Encrypt one block under `key` and tag it with `key_id`. A key id that does
/// not fit the one-byte wire header is refused rather than silently aliased.
pub fn encode(block: &Vec<u8>, key: &Vec<u8>, key_id: u32) -> (r: Result<Chunk, RelayError>)
    requires
        block@.len() == BLOCK_LEN,
        key@.len() == KEY_LEN,
    ensures
        match r {
            Ok(c) => key_id <= 255 && c.wf() && c.key_id == key_id as u8 && c.payload@
                == aes128_enc(key@, block@) && aes128_dec(key@, c.payload@) == block@,
            Err(e) => key_id > 255 && e == RelayError::KeyIdOutOfRange,
        },
{
    if key_id > 255 {
        return Err(RelayError::KeyIdOutOfRange);
    }
    let payload = aes128_encrypt_block(key, block);
    Ok(Chunk { key_id: key_id as u8, payload })
}

/// Decrypt one chunk's payload under `key`; the inverse of `encode`'s
/// encryption under the same key.
pub fn decode(chunk: &Chunk, key: &Vec<u8>) -> (r: Vec<u8>)
    requires
        chunk.wf(),
        key@.len() == KEY_LEN,
    ensures
        r@.len() == BLOCK_LEN,
        r@ == aes128_dec(key@, chunk.payload@),
        aes128_enc(key@, r@) == chunk.payload@,
{
    aes128_decrypt_block(key, &chunk.payload)
}

/// Round trip: decoding an encoded block under the key that encoded it gives
/// the block back, for every block and every key id the wire can carry.
pub fn encode_then_decode(block: &Vec<u8>, key: &Vec<u8>, key_id: u32) -> (r: Result<
    Vec<u8>,
    RelayError,
>)
    requires
        block@.len() == BLOCK_LEN,
        key@.len() == KEY_LEN,
    ensures
        match r {
            Ok(p) => key_id <= 255 && p@ == block@,
            Err(e) => key_id > 255 && e == RelayError::KeyIdOutOfRange,
        },
{
    let chunk = match encode(block, key, key_id) {
        Ok(c) => c,
        Err(e) => {
            return Err(e);
        },
    };
    Ok(decode(&chunk, key))
}

/// Lay one chunk out in its wire form.
pub fn frame_chunk(c: &Chunk) -> (r: Vec<u8>)
    requires
        c.wf(),
    ensures
        r@.len() == FRAME_LEN,
        r@ == frame_spec(c.key_id, c.payload@),
{
    let mut out: Vec<u8> = Vec::new();
    out.push(c.key_id);
    let mut i: usize = 0;
    while i < c.payload.len()
        invariant
            c.wf(),
            i <= BLOCK_LEN,
            out@.len() == 1 + i,
            out@[0] == c.key_id,
            forall|j: int| 0 <= j < i ==> out@[j + 1] == c.payload@[j],
        decreases BLOCK_LEN - i,
    {
        out.push(c.payload[i]);
        i = i + 1;
    }
    proof {
        assert(out@ =~= frame_spec(c.key_id, c.payload@));
    }
    out
}

/// Read one chunk back out of its wire form; anything that is not exactly one
/// frame long is refused as malformed.
pub fn parse_frame(bytes: &Vec<u8>) -> (r: Result<Chunk, RelayError>)
    ensures
        match r {
            Ok(c) => c.wf() && parse_spec(bytes@) == Some((c.key_id, c.payload@)),
            Err(e) => parse_spec(bytes@) is None && e == RelayError::MalformedFrame,
        },
{
    if bytes.len() != FRAME_LEN {
        return Err(RelayError::MalformedFrame);
    }
    let key_id = bytes[0];
    let mut payload: Vec<u8> = Vec::new();
    let mut i: usize = 1;
    while i < FRAME_LEN
        invariant
            bytes@.len() == FRAME_LEN,
            1 <= i <= FRAME_LEN,
            payload@.len() == i - 1,
            forall|j: int| 0 <= j < i - 1 ==> payload@[j] == bytes@[j + 1],
        decreases FRAME_LEN - i,
    {
        payload.push(bytes[i]);
        i = i + 1;
    }
    proof {
        assert(payload@ =~= bytes@.subrange(1, FRAME_LEN as int));
    }
    Ok(Chunk { key_id, payload })
}

/// Law: parsing the wire form of a chunk gives back exactly its key id and
/// payload; framing loses nothing.
pub proof fn lemma_frame_parse_round_trip(key_id: u8, payload: Seq<u8>)
    requires
        payload.len() == BLOCK_LEN,
    ensures
        parse_spec(frame_spec(key_id, payload)) == Some((key_id, payload)),
{
    assert(frame_spec(key_id, payload).subrange(1, FRAME_LEN as int) =~= payload);
}

} // verus!
