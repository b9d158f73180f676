use rstf::compress::{compress, decompress};
use rstf::container::{
    container_name, list, list_with, pack, pack_with, seal_container, unpack, unseal_container,
    PREFIX_LEN,
};
use rstf::error::RstfError;
use rstf::frame::{open_frame, Frame, CHUNK_SIZE};
use rstf::frame::{FRAME_SIZE, TAG_SIZE};
use std::io::Read;
use rstf::header::RstfHeader;

fn header(is_dir: bool, name: &str, size: u64) -> RstfHeader {
    RstfHeader::new(is_dir, name.to_string(), size)
}

fn noise(len: usize) -> Vec<u8> {
    let mut state: u64 = 0x9e37_79b9_7f4a_7c15;
    let mut out = Vec::with_capacity(len);
    for _ in 0..len {
        state ^= state << 13;
        state ^= state >> 7;
        state ^= state << 17;
        out.push((state >> 24) as u8);
    }
    out
}

#[test]
fn pack_then_unpack_gives_the_payload_back() {
    let payload = b"The quick brown fox jumps over the lazy dog".to_vec();
    let mut password = String::from("correct horse");
    let container = pack(&header(false, "fox.txt", 43), &payload, 5, 0, &mut password, None).unwrap();
    assert!(password.is_empty());
    let mut password = String::from("correct horse");
    let (h, out) = unpack(&container, &mut password, None).unwrap();
    assert!(password.is_empty());
    assert!(!h.is_dir);
    assert_eq!(h.original_name, "fox.txt");
    assert_eq!(h.original_size, 43);
    assert_eq!(out, payload);
}

#[test]
fn empty_file_round_trips() {
    let mut password = String::from("pw");
    let container = pack(&header(false, "empty.bin", 0), &[], 5, 0, &mut password, None).unwrap();
    let mut password = String::from("pw");
    let (h, out) = unpack(&container, &mut password, None).unwrap();
    assert_eq!(h.original_name, "empty.bin");
    assert_eq!(h.original_size, 0);
    assert!(out.is_empty());
    // salt, base nonce, and one closing frame over the length prefix, the
    // header of 1 + 8 + 9 + 8 bytes and the compressed form of nothing
    let stored = compress(&[], 5, 0).unwrap();
    assert_eq!(container.len(), 16 + 7 + 4 + 26 + stored.len() + TAG_SIZE);
}

#[test]
fn wrong_password_is_an_auth_error() {
    let mut password = String::from("right");
    let container = pack(&header(false, "a", 3), b"abc", 5, 0, &mut password, None).unwrap();
    let mut wrong = String::from("wrong");
    assert_eq!(unpack(&container, &mut wrong, None).err(), Some(RstfError::Auth));
    assert!(wrong.is_empty());
}

#[test]
fn keyfile_is_part_of_the_credentials() {
    let keyfile = b"contents of the keyfile".to_vec();
    let mut password = String::from("pw");
    let container =
        pack(&header(false, "a", 3), b"abc", 5, 0, &mut password, Some(&keyfile[..])).unwrap();
    let mut password = String::from("pw");
    assert_eq!(unpack(&container, &mut password, None).err(), Some(RstfError::Auth));
    let mut password = String::from("pw");
    let (_, out) = unpack(&container, &mut password, Some(&keyfile[..])).unwrap();
    assert_eq!(out, b"abc".to_vec());
}

#[test]
fn two_containers_of_one_input_differ_in_their_prefix() {
    let mut once = String::from("pw");
    let mut again = String::from("pw");
    let a = pack(&header(false, "a", 3), b"abc", 5, 0, &mut once, None).unwrap();
    let b = pack(&header(false, "a", 3), b"abc", 5, 0, &mut again, None).unwrap();
    assert_ne!(&a[..PREFIX_LEN], &b[..PREFIX_LEN]);
}

#[test]
fn short_container_is_a_format_error() {
    let mut password = String::from("pw");
    assert_eq!(unpack(&[0u8; 22], &mut password, None).err(), Some(RstfError::Format));
    assert!(password.is_empty());
    let mut password = String::from("pw");
    assert_eq!(unpack(&[0u8; 23], &mut password, None).err(), Some(RstfError::Truncation));
}

#[test]
fn flipped_byte_before_the_tag_is_an_auth_error() {
    let mut password = String::from("pw");
    let mut container =
        pack(&header(false, "a.txt", 11), b"hello world", 5, 0, &mut password, None).unwrap();
    let at = container.len() - TAG_SIZE - 1;
    container[at] ^= 0x01;
    let mut password = String::from("pw");
    assert_eq!(unpack(&container, &mut password, None).err(), Some(RstfError::Auth));
}

#[test]
fn incompressible_chunk_spills_into_a_second_frame() {
    let payload = noise(65536);
    let key = [9u8; 32];
    let salt = [1u8; 16];
    let nonce = [2u8; 7];
    let container =
        pack_with(&header(false, "noise.bin", 65536), &payload, 5, 0, &key, &salt, &nonce).unwrap();
    assert_eq!(&container[..16], &salt[..]);
    assert_eq!(&container[16..23], &nonce[..]);
    let sealed = &container[PREFIX_LEN..];
    assert!(sealed.len() > FRAME_SIZE + TAG_SIZE);
    assert!(sealed.len() < 2 * FRAME_SIZE);
    // one full frame without the last-frame flag, then the closing frame
    let first = match open_frame(&key, &nonce, 0, &sealed[..FRAME_SIZE]) {
        Frame::More(plaintext) => plaintext,
        _ => panic!("the first frame lies in the middle of the stream"),
    };
    assert_eq!(first.len(), CHUNK_SIZE);
    assert_eq!(&first[..4], &[26, 0, 0, 0]);
    let rest = match open_frame(&key, &nonce, 1, &sealed[FRAME_SIZE..]) {
        Frame::Last(plaintext) => plaintext,
        _ => panic!("the second frame closes the stream"),
    };
    assert_eq!(rest.len(), sealed.len() - FRAME_SIZE - TAG_SIZE);
    let (h, out) = unseal_container(&key, &container).unwrap();
    assert_eq!(h.original_size, 65536);
    assert_eq!(decompress(&out), Ok(payload));
}

#[test]
fn one_byte_more_keeps_the_number_of_frames() {
    let payload = noise(65537);
    let key = [9u8; 32];
    let container =
        pack_with(&header(false, "noise.bin", 65537), &payload, 5, 0, &key, &[1; 16], &[2; 7])
            .unwrap();
    let sealed = &container[PREFIX_LEN..];
    assert!(sealed.len() > FRAME_SIZE + TAG_SIZE);
    assert!(sealed.len() < 2 * FRAME_SIZE);
    assert!(matches!(open_frame(&key, &[2; 7], 0, &sealed[..FRAME_SIZE]), Frame::More(_)));
    assert!(matches!(open_frame(&key, &[2; 7], 1, &sealed[FRAME_SIZE..]), Frame::Last(_)));
}

fn archive_of(entries: &[(&str, &[u8])]) -> Vec<u8> {
    let mut builder = tar::Builder::new(Vec::new());
    for (path, data) in entries {
        let mut entry = tar::Header::new_gnu();
        entry.set_size(data.len() as u64);
        entry.set_mode(0o644);
        entry.set_cksum();
        builder.append_data(&mut entry, path, *data).unwrap();
    }
    builder.into_inner().unwrap()
}

fn entries_of(archive: &[u8]) -> Vec<(String, Vec<u8>)> {
    let mut archive = tar::Archive::new(archive);
    let mut found = Vec::new();
    for entry in archive.entries().unwrap() {
        let mut entry = entry.unwrap();
        let path = entry.path().unwrap().to_string_lossy().to_string();
        let mut data = Vec::new();
        entry.read_to_end(&mut data).unwrap();
        found.push((path, data));
    }
    found
}

#[test]
fn directory_tree_round_trips_as_an_archive() {
    let tree: [(&str, &[u8]); 2] = [("d/a", b"hello\n"), ("d/sub/b", b"world\n")];
    let archive = archive_of(&tree);
    let mut password = String::from("pw");
    let container = pack(&header(true, "d", 0), &archive, 5, 0, &mut password, None).unwrap();
    let mut password = String::from("pw");
    let (h, out) = unpack(&container, &mut password, None).unwrap();
    assert!(h.is_dir);
    assert_eq!(h.original_name, "d");
    assert_eq!(
        entries_of(&out),
        vec![("d/a".to_string(), b"hello\n".to_vec()), ("d/sub/b".to_string(), b"world\n".to_vec())]
    );
}

#[test]
fn directory_payload_round_trips_as_bytes() {
    let payload = noise(3000);
    let mut password = String::from("pw");
    let container = pack(&header(true, "d", 12345), &payload, 3, 2, &mut password, None).unwrap();
    let mut password = String::from("pw");
    let (h, out) = unpack(&container, &mut password, None).unwrap();
    assert!(h.is_dir);
    assert_eq!(h.original_name, "d");
    assert_eq!(h.original_size, 0);
    assert_eq!(out, payload);
}

#[test]
fn list_gives_the_header_without_the_payload() {
    let payload = noise(200_000);
    let mut password = String::from("pw");
    let mut container =
        pack(&header(false, "big.bin", 200_000), &payload, 1, 0, &mut password, None).unwrap();
    let mut password = String::from("pw");
    let h = list(&container, &mut password, None).unwrap();
    assert!(password.is_empty());
    assert!(!h.is_dir);
    assert_eq!(h.original_name, "big.bin");
    assert_eq!(h.original_size, 200_000);
    let mut wrong = String::from("other");
    assert_eq!(list(&container, &mut wrong, None).err(), Some(RstfError::Auth));
    // a damaged frame behind the header is found by unpacking, not by listing
    let end = container.len() - 1;
    container[end] ^= 1;
    let mut password = String::from("pw");
    assert_eq!(list(&container, &mut password, None).unwrap().original_name, "big.bin");
    let mut password = String::from("pw");
    assert_eq!(unpack(&container, &mut password, None).err(), Some(RstfError::Auth));
}

#[test]
fn list_of_a_short_container_is_a_format_error() {
    let mut password = String::from("pw");
    assert_eq!(list(&[1, 2, 3], &mut password, None).err(), Some(RstfError::Format));
    assert!(password.is_empty());
}

#[test]
fn container_cut_between_frames_is_truncated() {
    let payload = noise(150_000);
    let mut password = String::from("pw");
    let container =
        pack(&header(false, "n", 150_000), &payload, 1, 0, &mut password, None).unwrap();
    assert!(container.len() > PREFIX_LEN + 2 * FRAME_SIZE);
    for frames in 0..3 {
        let mut password = String::from("pw");
        let cut = PREFIX_LEN + frames * FRAME_SIZE;
        assert_eq!(
            unpack(&container[..cut], &mut password, None).err(),
            Some(RstfError::Truncation)
        );
    }
}

#[test]
fn payload_that_is_not_compressed_data_is_a_compression_error() {
    let key = [5u8; 32];
    let salt = [6u8; 16];
    let nonce = [7u8; 7];
    let prelude = header(false, "x", 4).prelude().unwrap();
    let container = seal_container(&prelude, b"not zstd", &key, &salt, &nonce).unwrap();
    let (h, stored) = unseal_container(&key, &container).unwrap();
    assert_eq!(h.original_name, "x");
    assert_eq!(stored, b"not zstd".to_vec());
    assert_eq!(decompress(&stored).err(), Some(RstfError::Compression));
    assert_eq!(list_with(&key, &container).unwrap().original_size, 4);
}

#[test]
fn sealed_garbage_header_is_a_format_error() {
    let key = [5u8; 32];
    let container = seal_container(&[2, 0, 0, 0, 7, 7], b"", &key, &[0; 16], &[0; 7]).unwrap();
    assert_eq!(unseal_container(&key, &container).err(), Some(RstfError::Format));
}

#[test]
fn compression_round_trips_and_shrinks_repetition() {
    let data = vec![b'a'; 100_000];
    let stored = compress(&data, 5, 0).unwrap();
    assert!(stored.len() < 1000);
    assert_eq!(decompress(&stored), Ok(data));
}

#[test]
fn container_name_appends_the_extension() {
    assert_eq!(container_name("notes.txt"), "notes.txt.rstf");
    assert_eq!(container_name("dir"), "dir.rstf");
    assert_eq!(container_name(""), ".rstf");
}

#[test]
fn every_error_has_its_own_message() {
    let all = [
        RstfError::Credential,
        RstfError::Format,
        RstfError::Auth,
        RstfError::Truncation,
        RstfError::Compression,
        RstfError::Seal,
    ];
    assert_eq!(RstfError::Auth.message(), "wrong password or keyfile");
    for (i, a) in all.iter().enumerate() {
        assert!(!a.message().is_empty());
        assert!(!a.message().contains('\n'));
        for b in &all[i + 1..] {
            assert_ne!(a.message(), b.message());
        }
    }
}
