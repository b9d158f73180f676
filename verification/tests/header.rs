use rstf::error::RstfError;
use rstf::header::RstfHeader;

#[test]
fn header_bytes_are_flag_name_and_size() {
    let h = RstfHeader::new(false, "empty.bin".to_string(), 258);
    let mut expected = vec![0u8];
    expected.extend_from_slice(&[9, 0, 0, 0, 0, 0, 0, 0]);
    expected.extend_from_slice(b"empty.bin");
    expected.extend_from_slice(&[2, 1, 0, 0, 0, 0, 0, 0]);
    assert_eq!(h.encode(), expected);
}

#[test]
fn directory_header_has_size_zero() {
    let h = RstfHeader::new(true, "d".to_string(), 4096);
    assert!(h.is_dir);
    assert_eq!(h.original_size, 0);
    assert_eq!(h.encode()[0], 1);
}

#[test]
fn header_round_trips() {
    let h = RstfHeader::new(false, "na\u{ef}ve \u{1f600}.txt".to_string(), u64::MAX);
    let back = RstfHeader::decode(&h.encode()).unwrap();
    assert_eq!(back.is_dir, h.is_dir);
    assert_eq!(back.original_name, h.original_name);
    assert_eq!(back.original_size, h.original_size);
}

#[test]
fn prelude_is_length_then_header() {
    let h = RstfHeader::new(false, "a".to_string(), 1);
    let bytes = h.encode();
    let prelude = h.prelude().unwrap();
    assert_eq!(&prelude[..4], &[18, 0, 0, 0]);
    assert_eq!(&prelude[4..], &bytes[..]);
    assert_eq!(RstfHeader::announced_len(&[18, 0, 0, 0]), 18);
    assert_eq!(RstfHeader::announced_len(&[0, 1, 0, 0]), 256);
}

#[test]
fn split_prelude_finds_the_payload() {
    let h = RstfHeader::new(false, "a".to_string(), 1);
    let mut plaintext = h.prelude().unwrap();
    plaintext.extend_from_slice(b"payload");
    let (back, start) = RstfHeader::split_prelude(&plaintext).unwrap();
    assert_eq!(back.original_name, "a");
    assert_eq!(start, 22);
    assert_eq!(&plaintext[start..], b"payload");
}

#[test]
fn malformed_preludes_are_format_errors() {
    assert_eq!(RstfHeader::split_prelude(&[1, 0, 0]).err(), Some(RstfError::Format));
    assert_eq!(RstfHeader::split_prelude(&[5, 0, 0, 0, 1, 2]).err(), Some(RstfError::Format));
    assert_eq!(RstfHeader::split_prelude(&[255, 255, 255, 255, 0]).err(), Some(RstfError::Format));
    assert_eq!(RstfHeader::split_prelude(&[1, 0, 0, 0, 7]).err(), Some(RstfError::Format));
    assert_eq!(RstfHeader::decode(&[2]).err(), Some(RstfError::Format));
    let bad_utf8 = [0u8, 1, 0, 0, 0, 0, 0, 0, 0, 0xff, 0, 0, 0, 0, 0, 0, 0, 0];
    assert_eq!(RstfHeader::decode(&bad_utf8).err(), Some(RstfError::Format));
}
