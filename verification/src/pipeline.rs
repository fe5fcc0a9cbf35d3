//! Per-role forwarding logic, one frame or one stream at a time. The
//! originator splits its payload into blocks and encrypts each under the
//! link's current key; a relay decrypts a received frame under the key its
//! key-id byte names on the inbound link and re-encrypts it under the
//! outbound link's current key; the terminal receiver decrypts and
//! accumulates. Listener sockets and threads live outside this crate and hand
//! these functions plain byte vectors.
use vstd::prelude::*;

use crate::BLOCK_LEN;
use crate::FRAME_LEN;
use crate::RelayError;
use crate::block_cipher::aes128_dec;
use crate::block_cipher::aes128_enc;
use crate::codec::decode;
use crate::codec::encode;
use crate::codec::frame_chunk;
use crate::codec::frame_spec;
use crate::codec::parse_frame;
use crate::keystore::KeyStore;

verus! {

/// The byte sequences a vector of byte vectors holds.
pub open spec fn byte_views(s: Seq<Vec<u8>>) -> Seq<Seq<u8>> {
    s.map(|i: int, v: Vec<u8>| v@)
}

/// A frame is one frame long and names a key id the store holds.
pub open spec fn frame_wf(store: Seq<Seq<u8>>, f: Seq<u8>) -> bool {
    f.len() == FRAME_LEN && (f[0] as int) < store.len()
}

/// The plaintext block a frame carries: its payload decrypted under the key
/// its key-id byte names.
pub open spec fn frame_plain(store: Seq<Seq<u8>>, f: Seq<u8>) -> Seq<u8> {
    aes128_dec(store[f[0] as int], f.subrange(1, FRAME_LEN as int))
}

/// Which error a frame that is not well formed earns: the length is checked
/// before the key id.
pub open spec fn frame_fail(store: Seq<Seq<u8>>, f: Seq<u8>) -> RelayError {
    if f.len() != FRAME_LEN {
        RelayError::MalformedFrame
    } else {
        RelayError::KeyNotFound
    }
}

/// Every frame of the stream is well formed against the store.
pub open spec fn stream_wf(store: Seq<Seq<u8>>, frames: Seq<Seq<u8>>) -> bool {
    forall|i: int| 0 <= i < frames.len() ==> frame_wf(store, #[trigger] frames[i])
}

/// The plaintext a stream of frames carries, in frame order.
pub open spec fn stream_plain(store: Seq<Seq<u8>>, frames: Seq<Seq<u8>>) -> Seq<u8>
    decreases frames.len(),
{
    if frames.len() == 0 {
        Seq::empty()
    } else {
        stream_plain(store, frames.drop_last()).add(frame_plain(store, frames.last()))
    }
}

/// The `i`-th full block of a byte sequence.
pub open spec fn block_at(data: Seq<u8>, i: int) -> Seq<u8> {
    data.subrange(i * (BLOCK_LEN as int), i * (BLOCK_LEN as int) + (BLOCK_LEN as int))
}

/// Decrypt one received frame: look its key id up in the link's store and
/// decode the payload. This is the terminal receiver's step; a bad frame
/// fails only the connection it came on, so the error is returned.
pub fn receive_frame(store: &KeyStore, frame: &Vec<u8>) -> (r: Result<Vec<u8>, RelayError>)
    requires
        store.wf(),
    ensures
        match r {
            Ok(p) => frame_wf(store@, frame@) && p@.len() == BLOCK_LEN && p@ == frame_plain(
                store@,
                frame@,
            ),
            Err(e) => !frame_wf(store@, frame@) && e == frame_fail(store@, frame@),
        },
{
    let chunk = match parse_frame(frame) {
        Ok(c) => c,
        Err(e) => {
            return Err(e);
        },
    };
    let key = match store.get(chunk.key_id as u32) {
        Ok(k) => k,
        Err(e) => {
            return Err(e);
        },
    };
    let p = decode(&chunk, &key);
    proof {
        assert(chunk.payload@ =~= frame@.subrange(1, FRAME_LEN as int));
    }
    Ok(p)
}

/// Encrypt one block under the link's current key and lay it out as a frame.
/// A store that has rotated past the one-byte id space refuses to encode
/// rather than alias an old id.
pub fn originate_block(store: &KeyStore, block: &Vec<u8>) -> (r: Result<Vec<u8>, RelayError>)
    requires
        store.wf(),
        block@.len() == BLOCK_LEN,
    ensures
        match r {
            Ok(f) => store@.len() <= 256 && f@ == frame_spec(
                (store@.len() - 1) as u8,
                aes128_enc(store@[store@.len() - 1], block@),
            ) && frame_wf(store@, f@) && frame_plain(store@, f@) == block@,
            Err(e) => store@.len() > 256 && e == RelayError::KeyIdOutOfRange,
        },
{
    let cur = store.current();
    if cur > 255 {
        return Err(RelayError::KeyIdOutOfRange);
    }
    let key = match store.get(cur) {
        Ok(k) => k,
        Err(_) => {
            // The current id is always installed.
            proof {
                assert(false);
            }
            return Err(RelayError::KeyIdOutOfRange);
        },
    };
    let chunk = match encode(block, &key, cur) {
        Ok(c) => c,
        Err(_) => {
            // The id was checked against the wire header just above.
            proof {
                assert(false);
            }
            return Err(RelayError::KeyIdOutOfRange);
        },
    };
    let f = frame_chunk(&chunk);
    proof {
        assert(f@.subrange(1, FRAME_LEN as int) =~= chunk.payload@);
    }
    Ok(f)
}

/// One relay step: decrypt a frame under the key its header names on the
/// inbound link, re-encrypt the block under the outbound link's current key,
/// and lay it out as the outbound frame. The plaintext is preserved across
/// the decrypt/re-encrypt boundary.
pub fn relay_frame(inbound: &KeyStore, outbound: &KeyStore, frame: &Vec<u8>) -> (r: Result<
    Vec<u8>,
    RelayError,
>)
    requires
        inbound.wf(),
        outbound.wf(),
    ensures
        match r {
            Ok(out) => frame_wf(inbound@, frame@) && outbound@.len() <= 256 && out@ == frame_spec(
                (outbound@.len() - 1) as u8,
                aes128_enc(outbound@[outbound@.len() - 1], frame_plain(inbound@, frame@)),
            ) && frame_wf(outbound@, out@) && frame_plain(outbound@, out@) == frame_plain(
                inbound@,
                frame@,
            ),
            Err(e) => if !frame_wf(inbound@, frame@) {
                e == frame_fail(inbound@, frame@)
            } else {
                outbound@.len() > 256 && e == RelayError::KeyIdOutOfRange
            },
        },
{
    let plain = match receive_frame(inbound, frame) {
        Ok(p) => p,
        Err(e) => {
            return Err(e);
        },
    };
    originate_block(outbound, &plain)
}

/// Partition a payload into its full blocks, in order; a final partial block
/// is not emitted, matching the fixed-block wire format.
pub fn split_blocks(data: &Vec<u8>) -> (r: Vec<Vec<u8>>)
    ensures
        r@.len() == data@.len() as int / (BLOCK_LEN as int),
        (BLOCK_LEN as int) * r@.len() <= data@.len(),
        data@.len() < (BLOCK_LEN as int) * (r@.len() + 1),
        forall|i: int| 0 <= i < r@.len() ==> byte_views(r@)[i] == block_at(data@, i),
{
    let n = data.len() / BLOCK_LEN;
    proof {
        vstd::arithmetic::div_mod::lemma_fundamental_div_mod(
            data@.len() as int,
            BLOCK_LEN as int,
        );
        vstd::arithmetic::div_mod::lemma_mod_division_less_than_divisor(
            data@.len() as int,
            BLOCK_LEN as int,
        );
    }
    let mut r: Vec<Vec<u8>> = Vec::new();
    let mut b: usize = 0;
    while b < n
        invariant
            n == data@.len() as int / (BLOCK_LEN as int),
            (BLOCK_LEN as int) * n <= data@.len(),
            data@.len() as int <= usize::MAX as int,
            b <= n,
            r@.len() == b,
            forall|i: int| 0 <= i < b ==> (#[trigger] r@[i])@ == block_at(data@, i),
        decreases n - b,
    {
        let mut blk: Vec<u8> = Vec::new();
        let mut j: usize = 0;
        while j < BLOCK_LEN
            invariant
                b < n,
                (BLOCK_LEN as int) * n <= data@.len(),
                data@.len() as int <= usize::MAX as int,
                j <= BLOCK_LEN,
                blk@.len() == j,
                forall|t: int| 0 <= t < j ==> blk@[t] == data@[b * (BLOCK_LEN as int) + t],
            decreases BLOCK_LEN - j,
        {
            proof {
                assert((BLOCK_LEN as int) * (b + 1) <= (BLOCK_LEN as int) * n) by (nonlinear_arith)
                    requires
                        b + 1 <= n,
                ;
            }
            blk.push(data[b * BLOCK_LEN + j]);
            j = j + 1;
        }
        proof {
            assert((BLOCK_LEN as int) * (b + 1) <= (BLOCK_LEN as int) * n) by (nonlinear_arith)
                requires
                    b + 1 <= n,
            ;
            assert(blk@ =~= block_at(data@, b as int));
        }
        r.push(blk);
        b = b + 1;
    }
    proof {
        assert forall|i: int| 0 <= i < r@.len() implies byte_views(r@)[i] == block_at(
            data@,
            i,
        ) by {
            assert(byte_views(r@)[i] == r@[i]@);
        }
    }
    r
}

/// Encrypt every full block of a payload under the link's current key, in
/// order, each as one wire frame. With at least one block to send, a store
/// past the one-byte id space refuses; with nothing to send there is nothing
/// to refuse.
pub fn originate_stream(store: &KeyStore, data: &Vec<u8>) -> (r: Result<Vec<Vec<u8>>, RelayError>)
    requires
        store.wf(),
    ensures
        match r {
            Ok(frames) => (data@.len() < BLOCK_LEN || store@.len() <= 256) && frames@.len()
                == data@.len() as int / (BLOCK_LEN as int) && (forall|i: int|
                0 <= i < frames@.len() ==> byte_views(frames@)[i] == frame_spec(
                    (store@.len() - 1) as u8,
                    aes128_enc(store@[store@.len() - 1], block_at(data@, i)),
                )) && (forall|i: int|
                0 <= i < frames@.len() ==> frame_plain(store@, #[trigger] byte_views(frames@)[i])
                    == block_at(data@, i)) && stream_wf(store@, byte_views(frames@)),
            Err(e) => data@.len() >= BLOCK_LEN && store@.len() > 256 && e
                == RelayError::KeyIdOutOfRange,
        },
{
    let blocks = split_blocks(data);
    proof {
        assert forall|k: int| 0 <= k < blocks@.len() implies (#[trigger] blocks@[k])@ == block_at(
            data@,
            k,
        ) by {
            assert(byte_views(blocks@)[k] == blocks@[k]@);
        }
    }
    let mut frames: Vec<Vec<u8>> = Vec::new();
    let mut i: usize = 0;
    while i < blocks.len()
        invariant
            store.wf(),
            blocks@.len() == data@.len() as int / (BLOCK_LEN as int),
            (BLOCK_LEN as int) * blocks@.len() <= data@.len(),
            forall|k: int| 0 <= k < blocks@.len() ==> (#[trigger] blocks@[k])@ == block_at(
                data@,
                k,
            ),
            i <= blocks@.len(),
            i > 0 ==> store@.len() <= 256,
            frames@.len() == i,
            forall|k: int| 0 <= k < i ==> (#[trigger] frames@[k])@ == frame_spec(
                (store@.len() - 1) as u8,
                aes128_enc(store@[store@.len() - 1], block_at(data@, k)),
            ),
            forall|k: int| 0 <= k < i ==> frame_plain(store@, (#[trigger] frames@[k])@)
                == block_at(data@, k),
            forall|k: int| 0 <= k < i ==> frame_wf(store@, (#[trigger] frames@[k])@),
        decreases blocks@.len() - i,
    {
        proof {
            assert((BLOCK_LEN as int) * (i + 1) <= (BLOCK_LEN as int) * blocks@.len()) by (nonlinear_arith)
                requires
                    i + 1 <= blocks@.len(),
            ;
        }
        let f = match originate_block(store, &blocks[i]) {
            Ok(f) => f,
            Err(e) => {
                proof {
                    assert((BLOCK_LEN as int) * 1 <= (BLOCK_LEN as int) * blocks@.len()) by (nonlinear_arith)
                        requires
                            1 <= blocks@.len(),
                    ;
                }
                return Err(e);
            },
        };
        frames.push(f);
        i = i + 1;
    }
    proof {
        assert forall|k: int| 0 <= k < frames@.len() implies byte_views(frames@)[k] == frame_spec(
            (store@.len() - 1) as u8,
            aes128_enc(store@[store@.len() - 1], block_at(data@, k)),
        ) && frame_plain(store@, byte_views(frames@)[k]) == block_at(data@, k) && frame_wf(
            store@,
            byte_views(frames@)[k],
        ) by {
            assert(byte_views(frames@)[k] == frames@[k]@);
        }
    }
    Ok(frames)
}

/// Decrypt a whole received stream, frame by frame in receipt order, and
/// accumulate the plaintext, as the terminal receiver does over one
/// connection. The first frame that is not well formed stops this stream with
/// its error; that ends only this connection's handling.
pub fn receive_stream(store: &KeyStore, frames: &Vec<Vec<u8>>) -> (r: Result<Vec<u8>, RelayError>)
    requires
        store.wf(),
    ensures
        match r {
            Ok(p) => stream_wf(store@, byte_views(frames@)) && p@ == stream_plain(
                store@,
                byte_views(frames@),
            ),
            Err(e) => exists|j: int|
                0 <= j < frames@.len() && !frame_wf(store@, #[trigger] byte_views(frames@)[j]) && (
                forall|k: int| 0 <= k < j ==> frame_wf(store@, byte_views(frames@)[k])) && e
                    == frame_fail(store@, byte_views(frames@)[j]),
        },
{
    let mut out: Vec<u8> = Vec::new();
    let mut i: usize = 0;
    while i < frames.len()
        invariant
            store.wf(),
            i <= frames@.len(),
            forall|k: int| 0 <= k < i ==> frame_wf(store@, (#[trigger] frames@[k])@),
            out@ == stream_plain(store@, byte_views(frames@).take(i as int)),
        decreases frames@.len() - i,
    {
        let mut p = match receive_frame(store, &frames[i]) {
            Ok(p) => p,
            Err(e) => {
                proof {
                    assert(byte_views(frames@)[i as int] == frames@[i as int]@);
                    assert forall|k: int| 0 <= k < i implies frame_wf(
                        store@,
                        byte_views(frames@)[k],
                    ) by {
                        assert(byte_views(frames@)[k] == frames@[k]@);
                    }
                }
                return Err(e);
            },
        };
        out.append(&mut p);
        proof {
            let views = byte_views(frames@);
            assert(views[i as int] == frames@[i as int]@);
            assert(views.take(i as int + 1).drop_last() =~= views.take(i as int));
            assert(views.take(i as int + 1).last() == views[i as int]);
        }
        i = i + 1;
    }
    proof {
        assert(byte_views(frames@).take(frames@.len() as int) =~= byte_views(frames@));
        assert forall|k: int| 0 <= k < frames@.len() implies frame_wf(
            store@,
            #[trigger] byte_views(frames@)[k],
        ) by {
            assert(byte_views(frames@)[k] == frames@[k]@);
        }
    }
    Ok(out)
}

/// Relay a whole inbound stream in receipt order: each frame is decrypted
/// under the key its header names on the inbound link and re-encrypted under
/// the outbound link's current key. The outbound stream carries exactly the
/// plaintext the inbound one carried; the first frame that cannot be relayed
/// stops this stream with its error and ends only this connection's handling.
pub fn relay_stream(inbound: &KeyStore, outbound: &KeyStore, frames: &Vec<Vec<u8>>) -> (r: Result<
    Vec<Vec<u8>>,
    RelayError,
>)
    requires
        inbound.wf(),
        outbound.wf(),
    ensures
        match r {
            Ok(out) => stream_wf(inbound@, byte_views(frames@)) && (frames@.len() == 0
                || outbound@.len() <= 256) && out@.len() == frames@.len() && (forall|k: int|
                0 <= k < out@.len() ==> byte_views(out@)[k] == frame_spec(
                    (outbound@.len() - 1) as u8,
                    aes128_enc(
                        outbound@[outbound@.len() - 1],
                        frame_plain(inbound@, #[trigger] byte_views(frames@)[k]),
                    ),
                )) && stream_wf(outbound@, byte_views(out@)) && stream_plain(
                outbound@,
                byte_views(out@),
            ) == stream_plain(inbound@, byte_views(frames@)),
            Err(e) => exists|j: int|
                0 <= j < frames@.len() && (!frame_wf(inbound@, #[trigger] byte_views(frames@)[j])
                    || outbound@.len() > 256) && (forall|k: int|
                    0 <= k < j ==> frame_wf(inbound@, byte_views(frames@)[k])) && e == (
                if !frame_wf(inbound@, byte_views(frames@)[j]) {
                    frame_fail(inbound@, byte_views(frames@)[j])
                } else {
                    RelayError::KeyIdOutOfRange
                }),
        },
{
    let mut out: Vec<Vec<u8>> = Vec::new();
    let mut i: usize = 0;
    while i < frames.len()
        invariant
            inbound.wf(),
            outbound.wf(),
            i <= frames@.len(),
            i > 0 ==> outbound@.len() <= 256,
            out@.len() == i,
            forall|k: int| 0 <= k < i ==> frame_wf(inbound@, (#[trigger] frames@[k])@),
            forall|k: int| 0 <= k < i ==> (#[trigger] out@[k])@ == frame_spec(
                (outbound@.len() - 1) as u8,
                aes128_enc(outbound@[outbound@.len() - 1], frame_plain(inbound@, frames@[k]@)),
            ),
            forall|k: int| 0 <= k < i ==> frame_wf(outbound@, (#[trigger] out@[k])@),
            stream_plain(outbound@, byte_views(out@)) == stream_plain(
                inbound@,
                byte_views(frames@).take(i as int),
            ),
        decreases frames@.len() - i,
    {
        let f = match relay_frame(inbound, outbound, &frames[i]) {
            Ok(f) => f,
            Err(e) => {
                proof {
                    assert(byte_views(frames@)[i as int] == frames@[i as int]@);
                    assert forall|k: int| 0 <= k < i implies frame_wf(
                        inbound@,
                        byte_views(frames@)[k],
                    ) by {
                        assert(byte_views(frames@)[k] == frames@[k]@);
                    }
                }
                return Err(e);
            },
        };
        let ghost prev = out@;
        out.push(f);
        proof {
            assert(byte_views(out@).drop_last() =~= byte_views(prev));
            assert(byte_views(out@).last() == f@);
            let views = byte_views(frames@);
            assert(views[i as int] == frames@[i as int]@);
            assert(views.take(i as int + 1).drop_last() =~= views.take(i as int));
            assert(views.take(i as int + 1).last() == views[i as int]);
        }
        i = i + 1;
    }
    proof {
        assert(byte_views(frames@).take(frames@.len() as int) =~= byte_views(frames@));
        assert forall|k: int| 0 <= k < frames@.len() implies frame_wf(
            inbound@,
            #[trigger] byte_views(frames@)[k],
        ) by {
            assert(byte_views(frames@)[k] == frames@[k]@);
        }
        assert forall|k: int| 0 <= k < out@.len() implies byte_views(out@)[k] == frame_spec(
            (outbound@.len() - 1) as u8,
            aes128_enc(
                outbound@[outbound@.len() - 1],
                frame_plain(inbound@, byte_views(frames@)[k]),
            ),
        ) && frame_wf(outbound@, byte_views(out@)[k]) by {
            assert(byte_views(out@)[k] == out@[k]@);
            assert(byte_views(frames@)[k] == frames@[k]@);
        }
    }
    Ok(out)
}

/// The bytes a sequence of reads accumulates, in order.
pub open spec fn concat_of(parts: Seq<Seq<u8>>) -> Seq<u8>
    decreases parts.len(),
{
    if parts.len() == 0 {
        Seq::empty()
    } else {
        concat_of(parts.drop_last()).add(parts.last())
    }
}

/// Gather the reads of one rotation-channel connection into the single
/// message they spell, in arrival order; the channel marks the end of a
/// message only by the connection closing, so every read belongs to it.
pub fn assemble_message(parts: &Vec<Vec<u8>>) -> (r: Vec<u8>)
    ensures
        r@ == concat_of(byte_views(parts@)),
{
    let mut out: Vec<u8> = Vec::new();
    let mut i: usize = 0;
    while i < parts.len()
        invariant
            i <= parts@.len(),
            out@ == concat_of(byte_views(parts@).take(i as int)),
        decreases parts@.len() - i,
    {
        let mut part = parts[i].clone();
        proof {
            assert forall|t: int| 0 <= t < part@.len() implies part@[t] == parts@[i as int]@[t] by {
                assert(cloned::<u8>(parts@[i as int]@[t], part@[t]));
            }
            assert(part@ =~= parts@[i as int]@);
        }
        out.append(&mut part);
        proof {
            let views = byte_views(parts@);
            assert(views[i as int] == parts@[i as int]@);
            assert(views.take(i as int + 1).drop_last() =~= views.take(i as int));
            assert(views.take(i as int + 1).last() == views[i as int]);
        }
        i = i + 1;
    }
    proof {
        assert(byte_views(parts@).take(parts@.len() as int) =~= byte_views(parts@));
    }
    out
}

} // verus!
