use hoprelay::RelayError;
use hoprelay::keystore::KeyStore;
use hoprelay::pipeline::{
    assemble_message, originate_block, originate_stream, receive_frame, receive_stream,
    relay_frame, relay_stream, split_blocks,
};

fn padded_block(text: &[u8]) -> Vec<u8> {
    let mut b = text.to_vec();
    while b.len() < 16 {
        b.push(0);
    }
    b
}

#[test]
fn bootstrap_hello_world() {
    // Originator and its next hop share only the pre-installed bootstrap key.
    let originator_keys = KeyStore::new();
    let relay_keys = KeyStore::new();

    let block = padded_block(b"Hello world!");
    let frame = originate_block(&originator_keys, &block).unwrap();
    assert_eq!(frame.len(), 17);
    assert_eq!(frame[0], 0);

    let plain = receive_frame(&relay_keys, &frame).unwrap();
    assert_eq!(&plain[..12], b"Hello world!");
    assert_eq!(plain, block);
}

#[test]
fn mid_stream_rotation() {
    // Three blocks under id 0, a rotation, two more under id 1; the receiver
    // decodes all five in order with the per-chunk key-id header, and id 0 is
    // still usable after the rotation.
    let mut sender = KeyStore::new();
    let mut receiver = KeyStore::new();

    let blocks: Vec<Vec<u8>> = vec![
        padded_block(b"block one"),
        padded_block(b"block two"),
        padded_block(b"block three"),
        padded_block(b"block four"),
        padded_block(b"block five"),
    ];

    let mut frames: Vec<Vec<u8>> = Vec::new();
    for b in &blocks[..3] {
        frames.push(originate_block(&sender, b).unwrap());
    }
    sender.install_rotation(b"ABCDEFGHIJKLMNOP".to_vec()).unwrap();
    receiver.install_rotation(b"ABCDEFGHIJKLMNOP".to_vec()).unwrap();
    for b in &blocks[3..] {
        frames.push(originate_block(&sender, b).unwrap());
    }

    assert_eq!(frames[0][0], 0);
    assert_eq!(frames[2][0], 0);
    assert_eq!(frames[3][0], 1);
    assert_eq!(frames[4][0], 1);

    let plain = receive_stream(&receiver, &frames).unwrap();
    let mut expected: Vec<u8> = Vec::new();
    for b in &blocks {
        expected.extend_from_slice(b);
    }
    assert_eq!(plain, expected);
}

#[test]
fn relay_reencrypts_under_current_key() {
    let upstream = KeyStore::new();
    let mut inbound = KeyStore::new();
    let mut outbound = KeyStore::new();
    let mut downstream = KeyStore::new();
    inbound.install_rotation(b"ABCDEFGHIJKLMNOP".to_vec()).unwrap();
    outbound.install_rotation(b"QRSTUVWXYZ012345".to_vec()).unwrap();
    downstream.install_rotation(b"QRSTUVWXYZ012345".to_vec()).unwrap();

    // The upstream link still uses the bootstrap key (id 0); the relay's
    // outbound link has rotated to id 1.
    let block = padded_block(b"payload block");
    let frame = originate_block(&upstream, &block).unwrap();
    let forwarded = relay_frame(&inbound, &outbound, &frame).unwrap();
    assert_eq!(forwarded[0], 1);
    assert_ne!(forwarded, frame);

    let plain = receive_frame(&downstream, &forwarded).unwrap();
    assert_eq!(plain, block);
}

#[test]
fn relay_unknown_key_id_fails_connection() {
    let inbound = KeyStore::new();
    let outbound = KeyStore::new();
    let mut frame = vec![7u8];
    frame.extend_from_slice(&[0u8; 16]);
    assert_eq!(
        relay_frame(&inbound, &outbound, &frame).err(),
        Some(RelayError::KeyNotFound)
    );
    assert_eq!(
        receive_frame(&inbound, &frame).err(),
        Some(RelayError::KeyNotFound)
    );
}

#[test]
fn relay_malformed_frame_fails_connection() {
    let inbound = KeyStore::new();
    let outbound = KeyStore::new();
    let frame = vec![0u8; 16];
    assert_eq!(
        relay_frame(&inbound, &outbound, &frame).err(),
        Some(RelayError::MalformedFrame)
    );
}

#[test]
fn wraparound_insert_256_keys() {
    // After 256 rotations the current id no longer fits the one-byte wire
    // header; encoding refuses rather than aliasing an old id, and old ids
    // keep their material.
    let mut store = KeyStore::new();
    for i in 0..256u32 {
        let mut key = vec![0u8; 16];
        key[0] = (i % 251) as u8;
        key[1] = (i / 251) as u8;
        let id = store.insert(key);
        assert_eq!(id, i + 1);
    }
    assert_eq!(store.current(), 256);
    let block = padded_block(b"one more block");
    assert_eq!(
        originate_block(&store, &block).err(),
        Some(RelayError::KeyIdOutOfRange)
    );
    assert_eq!(
        originate_stream(&store, &block).err(),
        Some(RelayError::KeyIdOutOfRange)
    );
    // Frames that reference an old, single-byte id still decode.
    assert_eq!(store.get(0).unwrap(), vec![0u8; 16]);
    assert!(store.get(200).is_ok());
}

#[test]
fn originate_stream_splits_and_tags() {
    let mut store = KeyStore::new();
    store.install_rotation(b"ABCDEFGHIJKLMNOP".to_vec()).unwrap();
    // 40 bytes: two full blocks, the trailing 8 bytes are not sent.
    let data: Vec<u8> = (0u8..40).collect();
    let frames = originate_stream(&store, &data).unwrap();
    assert_eq!(frames.len(), 2);
    assert_eq!(frames[0][0], 1);
    assert_eq!(frames[1][0], 1);

    let plain = receive_stream(&store, &frames).unwrap();
    assert_eq!(plain, (0u8..32).collect::<Vec<u8>>());
}

#[test]
fn split_blocks_exact() {
    let data: Vec<u8> = (0u8..35).collect();
    let blocks = split_blocks(&data);
    assert_eq!(blocks.len(), 2);
    assert_eq!(blocks[0], (0u8..16).collect::<Vec<u8>>());
    assert_eq!(blocks[1], (16u8..32).collect::<Vec<u8>>());
    assert_eq!(split_blocks(&Vec::new()).len(), 0);
    assert_eq!(split_blocks(&vec![1u8; 15]).len(), 0);
    assert_eq!(split_blocks(&vec![1u8; 16]).len(), 1);
}

#[test]
fn assemble_message_concatenates() {
    let parts: Vec<Vec<u8>> = vec![b"ABCDEFGH".to_vec(), b"IJKLMNOP".to_vec()];
    let message = assemble_message(&parts);
    assert_eq!(message, b"ABCDEFGHIJKLMNOP".to_vec());
    let mut store = KeyStore::new();
    assert_eq!(store.install_rotation(message), Ok(1));
    assert_eq!(assemble_message(&Vec::new()), Vec::<u8>::new());
}

#[test]
fn many_connections_interleaved() {
    // Fifty data connections into one relay, ten chunks each, handled in a
    // round-robin interleaving; every chunk is decrypted, re-encrypted under
    // the relay's outbound key and decoded correctly at the terminal, with no
    // chunk lost, corrupted, or attributed to the wrong key.
    let upstream = KeyStore::new();
    let inbound = KeyStore::new();
    let mut outbound = KeyStore::new();
    let mut terminal = KeyStore::new();
    outbound.install_rotation(b"ABCDEFGHIJKLMNOP".to_vec()).unwrap();
    terminal.install_rotation(b"ABCDEFGHIJKLMNOP".to_vec()).unwrap();

    let mut connections: Vec<Vec<Vec<u8>>> = Vec::new();
    let mut expected: Vec<Vec<Vec<u8>>> = Vec::new();
    for c in 0..50u8 {
        let mut frames = Vec::new();
        let mut blocks = Vec::new();
        for n in 0..10u8 {
            let mut block = vec![0u8; 16];
            block[0] = c;
            block[1] = n;
            frames.push(originate_block(&upstream, &block).unwrap());
            blocks.push(block);
        }
        connections.push(frames);
        expected.push(blocks);
    }

    let mut forwarded: Vec<Vec<Vec<u8>>> = vec![Vec::new(); 50];
    for n in 0..10 {
        for c in 0..50 {
            let out = relay_frame(&inbound, &outbound, &connections[c][n]).unwrap();
            assert_eq!(out[0], 1);
            forwarded[c].push(out);
        }
    }

    for c in 0..50 {
        assert_eq!(forwarded[c].len(), 10);
        let plain = receive_stream(&terminal, &forwarded[c]).unwrap();
        let mut want: Vec<u8> = Vec::new();
        for b in &expected[c] {
            want.extend_from_slice(b);
        }
        assert_eq!(plain, want);
    }
}

#[test]
fn relay_stream_preserves_plaintext() {
    let upstream = KeyStore::new();
    let inbound = KeyStore::new();
    let mut outbound = KeyStore::new();
    let mut terminal = KeyStore::new();
    outbound.install_rotation(b"QRSTUVWXYZ012345".to_vec()).unwrap();
    terminal.install_rotation(b"QRSTUVWXYZ012345".to_vec()).unwrap();

    let data: Vec<u8> = (0u8..48).collect();
    let frames = originate_stream(&upstream, &data).unwrap();
    let forwarded = relay_stream(&inbound, &outbound, &frames).unwrap();
    assert_eq!(forwarded.len(), 3);
    let plain = receive_stream(&terminal, &forwarded).unwrap();
    assert_eq!(plain, data);
}
