use chacha20poly1305::aead::{Aead, KeyInit};
use chacha20poly1305::{ChaCha20Poly1305, Key, Nonce};
use rstf::error::RstfError;
use rstf::frame::{CHUNK_SIZE, FRAME_SIZE, TAG_SIZE};
use rstf::stream::{open_stream, seal_stream};
use rstf::writer::EncryptedWriter;

const KEY: [u8; 32] = [0x42; 32];
const NONCE: [u8; 7] = [9, 8, 7, 6, 5, 4, 3];

fn ramp(len: usize) -> Vec<u8> {
    (0..len).map(|i| (i % 251) as u8).collect()
}

#[test]
fn small_writes_give_no_frame_until_close() {
    let mut w = EncryptedWriter::new(&KEY, &NONCE);
    assert!(w.write(b"abc").unwrap().is_empty());
    assert!(w.write(b"def").unwrap().is_empty());
    assert!(w.flush().is_empty());
    let last = w.close();
    assert_eq!(last.len(), 6 + TAG_SIZE);
    assert_eq!(open_stream(&KEY, &NONCE, &last), Ok(b"abcdef".to_vec()));
}

#[test]
fn a_frame_leaves_when_a_chunk_is_full() {
    let data = ramp(CHUNK_SIZE + 10);
    let mut w = EncryptedWriter::new(&KEY, &NONCE);
    assert!(w.write(&data[..CHUNK_SIZE - 1]).unwrap().is_empty());
    let out = w.write(&data[CHUNK_SIZE - 1..]).unwrap();
    assert_eq!(out.len(), FRAME_SIZE);
    let last = w.close();
    assert_eq!(last.len(), 10 + TAG_SIZE);
}

#[test]
fn one_write_of_several_chunks_gives_several_frames() {
    let data = ramp(3 * CHUNK_SIZE);
    let mut w = EncryptedWriter::new(&KEY, &NONCE);
    let out = w.write(&data).unwrap();
    assert_eq!(out.len(), 3 * FRAME_SIZE);
    let last = w.close();
    assert_eq!(last.len(), TAG_SIZE);
}

#[test]
fn pieces_and_whole_give_the_same_stream() {
    let data = ramp(2 * CHUNK_SIZE + 77);
    let whole = seal_stream(&KEY, &NONCE, &data).unwrap();
    let mut w = EncryptedWriter::new(&KEY, &NONCE);
    let mut pieces = Vec::new();
    for piece in data.chunks(10_007) {
        pieces.extend_from_slice(&w.write(piece).unwrap());
    }
    pieces.extend_from_slice(&w.close());
    assert_eq!(pieces, whole);
    assert_eq!(open_stream(&KEY, &NONCE, &pieces), Ok(data));
}

#[test]
fn second_close_gives_nothing() {
    let mut w = EncryptedWriter::new(&KEY, &NONCE);
    w.write(b"x").unwrap();
    assert_eq!(w.close().len(), 1 + TAG_SIZE);
    assert!(w.close().is_empty());
    assert!(w.flush().is_empty());
}

#[test]
fn write_after_close_is_refused() {
    let mut w = EncryptedWriter::new(&KEY, &NONCE);
    w.close();
    assert_eq!(w.write(b"late"), Err(RstfError::Seal));
    assert!(w.close().is_empty());
}

#[test]
fn frames_are_what_the_stream_construction_gives() {
    let data = ramp(CHUNK_SIZE + 5);
    let sealed = seal_stream(&KEY, &NONCE, &data).unwrap();
    let cipher = ChaCha20Poly1305::new(Key::from_slice(&KEY));
    // base nonce, counter in four bytes most significant first, last-frame flag
    let first = [9, 8, 7, 6, 5, 4, 3, 0, 0, 0, 0, 0];
    let second = [9, 8, 7, 6, 5, 4, 3, 0, 0, 0, 1, 1];
    let mut expected = cipher.encrypt(Nonce::from_slice(&first), &data[..CHUNK_SIZE]).unwrap();
    expected.extend_from_slice(
        &cipher.encrypt(Nonce::from_slice(&second), &data[CHUNK_SIZE..]).unwrap(),
    );
    assert_eq!(sealed, expected);
}
