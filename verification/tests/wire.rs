//! The wire format and the cipher.

use chacha20poly1305::aead::{Aead, KeyInit};
use peaboard::big_endian::{push_be, read_be};
use peaboard::cipher::{Cipher, NONCE_SIZE, TAG_SIZE};
use peaboard::proto::{
    board_key, open, open_inner, seal, seal_with_nonce, Post, ID_SIZE, INNER, MAX_POST,
    MESSAGE_SIZE, PAYLOAD,
};

fn post(board: &str, nick: &str, ts: u64, text: &str) -> Post {
    Post {
        board: board.to_string(),
        nick: nick.to_string(),
        ts,
        text: text.to_string(),
    }
}

fn same(a: &Post, b: &Post) -> bool {
    a.board == b.board && a.nick == b.nick && a.ts == b.ts && a.text == b.text
}

fn behind_id(id: u8, payload: &[u8]) -> Vec<u8> {
    let mut frame = vec![id; ID_SIZE];
    frame.extend_from_slice(payload);
    frame
}

/// A post whose written form has `len` bytes.
fn post_of_len(len: usize) -> Post {
    post("b", "n", 1, &"x".repeat(len - 14))
}

#[test]
fn sizes_of_the_frame() {
    assert_eq!(ID_SIZE, peasub::ID_SIZE);
    assert_eq!(MESSAGE_SIZE, 512);
    assert_eq!(PAYLOAD, 480);
    assert_eq!(INNER, 452);
    assert_eq!(MAX_POST, 450);
    assert_eq!(NONCE_SIZE + INNER + TAG_SIZE + ID_SIZE, MESSAGE_SIZE);
}

#[test]
fn big_endian_bytes() {
    let mut out: Vec<u8> = vec![7];
    push_be(&mut out, 0x0102_0304_0506_0708, 8);
    assert_eq!(out, vec![7, 1, 2, 3, 4, 5, 6, 7, 8]);
    assert_eq!(read_be(&out[1..]), 0x0102_0304_0506_0708);
    let mut low: Vec<u8> = Vec::new();
    push_be(&mut low, 0x0001_abcd, 2);
    assert_eq!(low, vec![0xab, 0xcd]);
    assert_eq!(read_be(&[]), 0);
    assert_eq!(read_be(&[0xff; 8]), u64::MAX);
    for value in [0u64, 1, 255, 256, 65_535, u64::MAX] {
        let mut bytes: Vec<u8> = Vec::new();
        push_be(&mut bytes, value, 8);
        assert_eq!(bytes, value.to_be_bytes().to_vec());
        assert_eq!(read_be(&bytes), value);
    }
}

#[test]
fn encode_writes_every_field() {
    let bytes = post("rust", "al", 0x0102_0304_0506_0708, "hé").encode().unwrap();
    let expected: Vec<u8> = vec![
        4, b'r', b'u', b's', b't', 2, b'a', b'l', 1, 2, 3, 4, 5, 6, 7, 8, 0, 3, b'h', 0xc3, 0xa9,
    ];
    assert_eq!(bytes, expected);
}

#[test]
fn encode_of_empty_fields() {
    let bytes = post("", "", 0, "").encode().unwrap();
    assert_eq!(bytes, vec![0u8; 12]);
    assert!(same(&Post::decode(&bytes).unwrap(), &post("", "", 0, "")));
}

#[test]
fn encode_refuses_long_fields() {
    assert!(post(&"b".repeat(255), "", 0, "").encode().is_some());
    assert!(post(&"b".repeat(256), "", 0, "").encode().is_none());
    assert!(post("", &"n".repeat(255), 0, "").encode().is_some());
    assert!(post("", &"n".repeat(256), 0, "").encode().is_none());
    assert!(post("", "", 0, &"t".repeat(65_536)).encode().is_none());
    assert!(post("", "", 0, &"t".repeat(70_000)).encode().is_none());
}

#[test]
fn encode_refuses_what_no_frame_holds() {
    assert_eq!(post_of_len(MAX_POST).encode().unwrap().len(), MAX_POST);
    assert!(post_of_len(MAX_POST + 1).encode().is_none());
    // Length counts bytes, not characters.
    assert!(post("", "", 0, &"é".repeat(219)).encode().is_some());
    assert!(post("", "", 0, &"é".repeat(220)).encode().is_none());
    // Each field alone is short enough, the whole is not.
    assert!(post(&"b".repeat(255), &"n".repeat(255), 0, "").encode().is_none());
}

#[test]
fn decode_reads_back_what_was_written() {
    for p in [
        post("rust", "alice", 1_700_000_000, "has anyone benchmarked locktick?"),
        post("", "", 0, ""),
        post("été", "日本", u64::MAX, "🦀 crab"),
        post_of_len(MAX_POST),
    ] {
        let mut bytes = p.encode().unwrap();
        assert!(same(&Post::decode(&bytes).unwrap(), &p));
        bytes.extend_from_slice(&[1, 2, 3]);
        assert!(same(&Post::decode(&bytes).unwrap(), &p));
    }
}

#[test]
fn decode_refuses_every_shorter_buffer() {
    let bytes = post("rust", "bob", 99, "hello").encode().unwrap();
    for len in 0..bytes.len() {
        assert!(Post::decode(&bytes[..len]).is_none(), "{} bytes", len);
    }
    assert!(Post::decode(&bytes).is_some());
}

#[test]
fn decode_refuses_broken_text() {
    let good = post("rs", "bo", 99, "hi").encode().unwrap();
    for at in [1usize, 4, 16] {
        let mut bad = good.clone();
        bad[at] = 0xff;
        assert!(Post::decode(&bad).is_none(), "byte {}", at);
    }
    // A character cut in two by a field's end.
    assert!(Post::decode(&[1, 0xc3, 0, 0, 0, 0, 0, 0, 0, 0, 0, 0, 0]).is_none());
    // The time takes any bytes.
    let mut time = good.clone();
    time[6] = 0xff;
    assert_eq!(Post::decode(&time).unwrap().ts, 0xff00_0000_0000_0063);
}

#[test]
fn what_decodes_is_written_at_the_front() {
    let bytes = [2u8, b'o', b'k', 1, b'z', 0, 0, 0, 0, 0, 0, 0, 5, 0, 1, b'!', 9, 9];
    let p = Post::decode(&bytes).unwrap();
    assert!(bytes.starts_with(&p.encode().unwrap()));
}

#[test]
fn posts_written_alike_are_the_same() {
    let a = post("ab", "c", 7, "d").encode().unwrap();
    let b = post("a", "bc", 7, "d").encode().unwrap();
    assert_ne!(a, b);
}

#[test]
fn seal_then_open_gives_the_post_back() {
    let cipher = board_key();
    for p in [
        post("rust", "alice", 1_700_000_000, "hello"),
        post("", "", 0, ""),
        post_of_len(MAX_POST),
    ] {
        let payload = seal(&cipher, &p).unwrap();
        for id in [0u8, 1, 255] {
            let opened = open(&cipher, &behind_id(id, &payload)).unwrap();
            assert!(same(&opened, &p));
        }
    }
}

#[test]
fn sealed_width_does_not_depend_on_the_post() {
    let cipher = board_key();
    assert_eq!(seal(&cipher, &post("", "", 0, "")).unwrap().len(), PAYLOAD);
    assert_eq!(seal(&cipher, &post("rust", "al", 5, "hi")).unwrap().len(), PAYLOAD);
    assert_eq!(seal(&cipher, &post_of_len(MAX_POST)).unwrap().len(), PAYLOAD);
}

#[test]
fn seal_refuses_long_posts() {
    assert!(seal(&board_key(), &post_of_len(MAX_POST + 1)).is_none());
    assert!(seal(&board_key(), &post(&"b".repeat(256), "", 0, "")).is_none());
    let nonce = [0u8; NONCE_SIZE];
    assert!(seal_with_nonce(&board_key(), &nonce, &post_of_len(MAX_POST + 1)).is_none());
}

#[test]
fn seal_draws_a_new_nonce_each_time() {
    let cipher = board_key();
    let p = post("rust", "al", 5, "hi");
    let a = seal(&cipher, &p).unwrap();
    let b = seal(&cipher, &p).unwrap();
    assert_ne!(a[..NONCE_SIZE], b[..NONCE_SIZE]);
    assert_ne!(a, b);
}

#[test]
fn sealed_payload_is_nonce_and_ciphertext() {
    let p = post("rust", "al", 5, "hi");
    let nonce = [9u8; NONCE_SIZE];
    let payload = seal_with_nonce(&board_key(), &nonce, &p).unwrap();
    assert_eq!(payload[..NONCE_SIZE], nonce);

    let body = p.encode().unwrap();
    let mut inner = vec![0u8, body.len() as u8];
    inner.extend_from_slice(&body);
    inner.resize(INNER, 0);
    let aead = chacha20poly1305::ChaCha20Poly1305::new(&[0x42u8; 32].into());
    let ciphertext = aead.encrypt(&nonce.into(), inner.as_slice()).unwrap();
    assert_eq!(payload[NONCE_SIZE..], ciphertext[..]);
    assert_eq!(aead.decrypt(&nonce.into(), &payload[NONCE_SIZE..]).unwrap(), inner);

    // The board name is nowhere to be read on the wire.
    assert!(!payload.windows(4).any(|w| w == b"rust"));
}

#[test]
fn open_refuses_another_key() {
    let payload = seal(&board_key(), &post("rust", "al", 5, "hi")).unwrap();
    let other = Cipher::new([0x43; 32]);
    assert!(open(&other, &behind_id(1, &payload)).is_none());
}

#[test]
fn open_refuses_a_changed_frame() {
    let cipher = board_key();
    let frame = behind_id(1, &seal(&cipher, &post("rust", "al", 5, "hi")).unwrap());
    for at in ID_SIZE..frame.len() {
        let mut bad = frame.clone();
        bad[at] ^= 1;
        assert!(open(&cipher, &bad).is_none(), "byte {}", at);
    }
    let mut renamed = frame.clone();
    renamed[0] ^= 1;
    assert!(open(&cipher, &renamed).is_some());
}

#[test]
fn open_refuses_short_frames_and_cover() {
    let cipher = board_key();
    for len in 0..ID_SIZE + NONCE_SIZE + TAG_SIZE + 2 {
        assert!(open(&cipher, &vec![0u8; len]).is_none(), "{} bytes", len);
    }
    assert!(open(&cipher, &[0u8; MESSAGE_SIZE]).is_none());
    assert!(open(&cipher, &[0x42u8; MESSAGE_SIZE]).is_none());
    let frame = behind_id(1, &seal(&cipher, &post("rust", "al", 5, "hi")).unwrap());
    assert!(open(&cipher, &frame[..frame.len() - 1]).is_none());
}

#[test]
fn open_takes_blocks_of_any_width() {
    let p = post("rust", "al", 5, "hi");
    let body = p.encode().unwrap();
    let mut inner = vec![0u8, body.len() as u8];
    inner.extend_from_slice(&body);
    let nonce = [3u8; NONCE_SIZE];
    let aead = chacha20poly1305::ChaCha20Poly1305::new(&[0x42u8; 32].into());
    let mut payload = nonce.to_vec();
    payload.extend_from_slice(&aead.encrypt(&nonce.into(), inner.as_slice()).unwrap());
    assert!(same(&open(&board_key(), &behind_id(8, &payload)).unwrap(), &p));

    // Authentic, but without a post in it.
    for block in [vec![], vec![0u8], vec![0, 0], vec![0, 9, 1], vec![0xff; 40]] {
        let mut payload = nonce.to_vec();
        payload.extend_from_slice(&aead.encrypt(&nonce.into(), block.as_slice()).unwrap());
        assert!(open(&board_key(), &behind_id(8, &payload)).is_none());
    }
}

#[test]
fn open_inner_reads_the_counted_bytes() {
    let p = post("rust", "al", 5, "hi");
    let body = p.encode().unwrap();
    let mut inner = vec![0u8, body.len() as u8];
    inner.extend_from_slice(&body);
    assert!(same(&open_inner(&inner).unwrap(), &p));
    inner.push(0);
    assert!(same(&open_inner(&inner).unwrap(), &p));
    inner[1] -= 1;
    assert!(open_inner(&inner).is_none());
    assert!(open_inner(&[]).is_none());
    assert!(open_inner(&[0]).is_none());
    assert!(open_inner(&[0, 0]).is_none());
    assert!(open_inner(&[0, 13, 0, 0]).is_none());
}

#[test]
fn board_key_is_the_shared_key() {
    let nonce = [1u8; NONCE_SIZE];
    let p = post("rust", "al", 5, "hi");
    let by_key = seal_with_nonce(&Cipher::new([0x42; 32]), &nonce, &p).unwrap();
    assert_eq!(seal_with_nonce(&board_key(), &nonce, &p).unwrap(), by_key);
}
