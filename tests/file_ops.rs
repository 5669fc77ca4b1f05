use ectfy::container::{read_container, write_container};
use ectfy::error::EctError;
use ectfy::file_ops::{
    decrypt_file, decrypt_folder, decrypt_payload, encrypt_file, encrypt_folder, seal_payload,
};
use ectfy::metadata::{ContentType, Metadata};
use ectfy::path_name::is_encrypted_file;

#[test]
fn test_is_encrypted_file() {
    assert!(is_encrypted_file("test.ect"));
    assert!(!is_encrypted_file("test.txt"));
}

#[test]
fn is_encrypted_file_follows_path_extension_rules() {
    assert!(is_encrypted_file("dir/sub/archive.ect"));
    assert!(is_encrypted_file("a.b.ect"));
    assert!(is_encrypted_file("dir/x.ect/"));
    assert!(is_encrypted_file("dir/x.ect/."));
    assert!(!is_encrypted_file(".ect"));
    assert!(!is_encrypted_file("dir/.ect"));
    assert!(!is_encrypted_file("ect"));
    assert!(!is_encrypted_file("x.ect.bak"));
    assert!(!is_encrypted_file("x.ect/inner"));
    assert!(!is_encrypted_file(""));
    assert!(!is_encrypted_file("/"));
    assert!(!is_encrypted_file("x.ECT"));
}

#[test]
fn test_encrypt_decrypt_file_round_trip() {
    let c = encrypt_file(b"Hello, World!", "test.txt", "test_password", "What is your favorite color?").unwrap();
    let (meta, data) = decrypt_file(&c, "test_password").unwrap();
    assert_eq!(data, b"Hello, World!");
    assert_eq!(meta.original_name, "test.txt");
    assert_eq!(meta.helper_question, "What is your favorite color?");
    assert_eq!(meta.content_type, ContentType::File);
}

#[test]
fn test_encrypt_decrypt_empty_file() {
    let c = encrypt_file(b"", "empty.txt", "test_password", "Test question").unwrap();
    let (_, content) = decrypt_file(&c, "test_password").unwrap();
    assert_eq!(content, b"");
}

#[test]
fn test_encrypt_decrypt_binary_file() {
    let binary_data = vec![0u8, 1u8, 2u8, 255u8, 128u8, 64u8];
    let c = encrypt_file(&binary_data, "binary.bin", "test_password", "Test question").unwrap();
    let (_, content) = decrypt_file(&c, "test_password").unwrap();
    assert_eq!(content, binary_data);
}

#[test]
fn test_encrypt_decrypt_special_characters_filename() {
    let c = encrypt_file(b"Content", "test file with spaces.txt", "test_password", "Test question").unwrap();
    let (meta, content) = decrypt_file(&c, "test_password").unwrap();
    assert!(meta.original_name.contains("test file with spaces"));
    assert_eq!(content, b"Content");
}

#[test]
fn empty_file_scenario() {
    let c = encrypt_file(b"", "empty.txt", "pw1", "h").unwrap();
    assert!(c.len() > 9);
    assert_eq!(decrypt_file(&c, "pw2").unwrap_err(), EctError::AuthenticationFailed);
    let (meta, data) = decrypt_file(&c, "pw1").unwrap();
    assert_eq!(meta.original_name, "empty.txt");
    assert_eq!(data.len(), 0);
}

#[test]
fn file_ops_test_wrong_password_fails() {
    let c = encrypt_file(b"Secret content", "test.txt", "correct_password", "Test question").unwrap();
    assert_eq!(decrypt_file(&c, "wrong_password").unwrap_err(), EctError::AuthenticationFailed);
}

#[test]
fn empty_helper_question_is_refused() {
    assert_eq!(encrypt_file(b"x", "a.txt", "pw", "").unwrap_err(), EctError::InvalidInput);
    assert_eq!(encrypt_folder(b"x", "dir", "pw", "").unwrap_err(), EctError::InvalidInput);
}

#[test]
fn two_encryptions_differ() {
    let a = encrypt_file(b"same", "same.txt", "pw", "h").unwrap();
    let b = encrypt_file(b"same", "same.txt", "pw", "h").unwrap();
    assert_ne!(a, b);
    let (ma, ca) = read_container(&a).unwrap();
    let (mb, cb) = read_container(&b).unwrap();
    assert_ne!(ma.salt, mb.salt);
    assert_ne!(ma.nonce, mb.nonce);
    assert_ne!(ca, cb);
}

#[test]
fn container_header_layout() {
    let c = seal_payload(b"abc", "n", ContentType::File, "pw", "q", [0u8; 32], [0u8; 12]).unwrap();
    assert_eq!(&c[0..4], b"ECTF");
    assert_eq!(c[4], 1);
    let meta_len = u32::from_le_bytes([c[5], c[6], c[7], c[8]]) as usize;
    assert_eq!(meta_len, 12 + 32 + 8 + 1 + 8 + 1 + 4);
    assert_eq!(c.len(), 9 + meta_len + 3 + 16);
    let again = seal_payload(b"abc", "n", ContentType::File, "pw", "q", [0u8; 32], [0u8; 12]).unwrap();
    assert_eq!(c, again);
}

#[test]
fn container_write_then_read() {
    let m = Metadata::new([9u8; 12], [8u8; 32], "hint".to_string(), "f.bin".to_string(), ContentType::File);
    let c = write_container(&m, &[1, 2, 3]).unwrap();
    let (back, ct) = read_container(&c).unwrap();
    assert_eq!(ct, vec![1, 2, 3]);
    assert_eq!(back.original_name, "f.bin");
    assert_eq!(back.helper_question, "hint");
}

#[test]
fn magic_bit_flip_is_corrupted_format() {
    let c = encrypt_file(b"data", "d.txt", "pw", "h").unwrap();
    for i in 0..4 {
        for bit in 0..8 {
            let mut d = c.clone();
            d[i] ^= 1 << bit;
            assert_eq!(decrypt_payload(&d, "pw").unwrap_err(), EctError::CorruptedFormat);
        }
    }
}

#[test]
fn version_bit_flip_is_unsupported_version() {
    let c = encrypt_file(b"data", "d.txt", "pw", "h").unwrap();
    let mut d = c.clone();
    d[4] ^= 0x02;
    assert_eq!(decrypt_payload(&d, "pw").unwrap_err(), EctError::UnsupportedVersion(3));
}

#[test]
fn ciphertext_bit_flip_is_authentication_failure() {
    let c = encrypt_file(b"some data", "d.txt", "pw", "h").unwrap();
    let meta_len = u32::from_le_bytes([c[5], c[6], c[7], c[8]]) as usize;
    for i in (9 + meta_len)..c.len() {
        let mut d = c.clone();
        d[i] ^= 0x10;
        assert_eq!(decrypt_payload(&d, "pw").unwrap_err(), EctError::AuthenticationFailed);
    }
}

#[test]
fn short_or_truncated_containers_are_corrupted_format() {
    assert_eq!(decrypt_payload(&[], "pw").unwrap_err(), EctError::CorruptedFormat);
    assert_eq!(decrypt_payload(b"ECTF\x01\x00\x00\x00", "pw").unwrap_err(), EctError::CorruptedFormat);
    assert_eq!(decrypt_payload(b"ECTF\x01\x05\x00\x00\x00abcd", "pw").unwrap_err(), EctError::CorruptedFormat);
}

#[test]
fn garbage_metadata_is_corrupted_metadata() {
    assert_eq!(decrypt_payload(b"ECTF\x01\x04\x00\x00\x00abcdrest", "pw").unwrap_err(), EctError::CorruptedMetadata);
}

#[test]
fn kind_mismatch_is_invalid_input() {
    let f = encrypt_file(b"x", "x.txt", "pw", "h").unwrap();
    let d = encrypt_folder(b"y", "dir", "pw", "h").unwrap();
    assert_eq!(decrypt_folder(&f, "pw").unwrap_err(), EctError::InvalidInput);
    assert_eq!(decrypt_file(&d, "pw").unwrap_err(), EctError::InvalidInput);
    let (meta, archive) = decrypt_folder(&d, "pw").unwrap();
    assert_eq!(meta.content_type, ContentType::Folder);
    assert_eq!(meta.original_name, "dir");
    assert_eq!(archive, b"y");
}

#[test]
fn bytes_after_the_record_inside_metadata_block_are_ignored() {
    let m = Metadata::new([1u8; 12], [2u8; 32], "h".to_string(), "n".to_string(), ContentType::File);
    let record = m.serialize().unwrap();
    let mut c = b"ECTF\x01".to_vec();
    c.extend_from_slice(&((record.len() + 1) as u32).to_le_bytes());
    c.extend_from_slice(&record);
    c.push(0);
    c.extend_from_slice(&[7u8; 20]);
    let (back, ct) = read_container(&c).unwrap();
    assert_eq!(back.original_name, "n");
    assert_eq!(back.helper_question, "h");
    assert_eq!(ct, vec![7u8; 20]);
}

#[test]
fn empty_ciphertext_region_is_returned_empty() {
    let m = Metadata::new([1u8; 12], [2u8; 32], "h".to_string(), "n".to_string(), ContentType::File);
    let c = write_container(&m, &[]).unwrap();
    let (_, ct) = read_container(&c).unwrap();
    assert!(ct.is_empty());
}
