use rstf::error::RstfError;
use rstf::frame::{CHUNK_SIZE, FRAME_SIZE, TAG_SIZE};
use rstf::stream::{open_stream, seal_stream};

const KEY: [u8; 32] = [7u8; 32];
const NONCE: [u8; 7] = [1, 2, 3, 4, 5, 6, 7];

fn pattern(len: usize) -> Vec<u8> {
    (0..len).map(|i| (i * 31 + 7) as u8).collect()
}

#[test]
fn empty_stream_is_one_closing_frame() {
    let sealed = seal_stream(&KEY, &NONCE, &[]).unwrap();
    assert_eq!(sealed.len(), TAG_SIZE);
    assert_eq!(open_stream(&KEY, &NONCE, &sealed), Ok(vec![]));
}

#[test]
fn short_stream_round_trips() {
    let data = b"hello, sealed world".to_vec();
    let sealed = seal_stream(&KEY, &NONCE, &data).unwrap();
    assert_eq!(sealed.len(), data.len() + TAG_SIZE);
    assert_ne!(&sealed[..data.len()], &data[..]);
    assert_eq!(open_stream(&KEY, &NONCE, &sealed), Ok(data));
}

#[test]
fn full_chunk_gives_two_frames() {
    let data = pattern(CHUNK_SIZE);
    let sealed = seal_stream(&KEY, &NONCE, &data).unwrap();
    assert_eq!(sealed.len(), FRAME_SIZE + TAG_SIZE);
    assert_eq!(open_stream(&KEY, &NONCE, &sealed), Ok(data));
}

#[test]
fn truncated_at_frame_boundary() {
    let data = pattern(2 * CHUNK_SIZE + 5);
    let sealed = seal_stream(&KEY, &NONCE, &data).unwrap();
    assert_eq!(sealed.len(), 2 * FRAME_SIZE + 5 + TAG_SIZE);
    assert_eq!(open_stream(&KEY, &NONCE, &sealed[..0]), Err(RstfError::Truncation));
    assert_eq!(open_stream(&KEY, &NONCE, &sealed[..FRAME_SIZE]), Err(RstfError::Truncation));
    assert_eq!(open_stream(&KEY, &NONCE, &sealed[..2 * FRAME_SIZE]), Err(RstfError::Truncation));
}

#[test]
fn one_byte_over_a_chunk_lands_in_the_closing_frame() {
    let data = pattern(CHUNK_SIZE + 1);
    let sealed = seal_stream(&KEY, &NONCE, &data).unwrap();
    assert_eq!(sealed.len(), FRAME_SIZE + 1 + TAG_SIZE);
    assert_eq!(open_stream(&KEY, &NONCE, &sealed), Ok(data));
}

#[test]
fn one_byte_under_a_chunk_is_one_frame() {
    let data = pattern(CHUNK_SIZE - 1);
    let sealed = seal_stream(&KEY, &NONCE, &data).unwrap();
    assert_eq!(sealed.len(), FRAME_SIZE - 1);
    assert_eq!(open_stream(&KEY, &NONCE, &sealed), Ok(data));
}

#[test]
fn same_input_same_stream() {
    let data = pattern(1000);
    assert_eq!(seal_stream(&KEY, &NONCE, &data), seal_stream(&KEY, &NONCE, &data));
    assert_ne!(seal_stream(&KEY, &NONCE, &data), seal_stream(&KEY, &[0; 7], &data));
}
