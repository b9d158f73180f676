use rstf::kdf::process_credentials;

#[test]
fn key_depends_on_password_salt_and_keyfile() {
    let salt = [3u8; 16];
    let mut p = String::from("password");
    let a = process_credentials(&mut p, None, &salt).unwrap();
    assert!(p.is_empty());
    let mut p = String::from("password");
    let again = process_credentials(&mut p, None, &salt).unwrap();
    assert_eq!(a, again);
    let mut p = String::from("passwore");
    assert_ne!(process_credentials(&mut p, None, &salt).unwrap(), a);
    let mut p = String::from("password");
    assert_ne!(process_credentials(&mut p, None, &[4u8; 16]).unwrap(), a);
    let mut p = String::from("password");
    let with_keyfile = process_credentials(&mut p, Some(&b"k"[..]), &salt).unwrap();
    assert_ne!(with_keyfile, a);
}

#[test]
fn keyfile_enters_as_its_sha256_digest() {
    let salt = [3u8; 16];
    // SHA-256 of the empty string.
    let digest: [u8; 32] = [
        0xe3, 0xb0, 0xc4, 0x42, 0x98, 0xfc, 0x1c, 0x14, 0x9a, 0xfb, 0xf4, 0xc8, 0x99, 0x6f, 0xb9, 0x24,
        0x27, 0xae, 0x41, 0xe4, 0x64, 0x9b, 0x93, 0x4c, 0xa4, 0x95, 0x99, 0x1b, 0x78, 0x52, 0xb8, 0x55,
    ];
    let mut p = String::from("pw");
    let with_keyfile = process_credentials(&mut p, Some(&[][..]), &salt).unwrap();
    let mut combined = b"pw".to_vec();
    combined.extend_from_slice(&digest);
    let mut expected = [0u8; 32];
    argon2::Argon2::default().hash_password_into(&combined, &salt, &mut expected).unwrap();
    assert_eq!(with_keyfile, expected);
}

#[test]
fn empty_password_gives_a_key() {
    let mut p = String::new();
    assert!(process_credentials(&mut p, None, &[0u8; 16]).is_ok());
}
