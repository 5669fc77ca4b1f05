use ectfy::encryption::{decrypt_data, derive_key, encrypt_data, encrypt_data_with_nonce, generate_salt};
use ectfy::error::EctError;

#[test]
fn test_encrypt_decrypt_round_trip() {
    let data = b"Hello, World!";
    let password = "test_password_123";
    let salt = generate_salt();

    let (ciphertext, nonce) = encrypt_data(data, password, &salt).unwrap();
    let decrypted = decrypt_data(&ciphertext, password, &salt, &nonce).unwrap();

    assert_eq!(data, decrypted.as_slice());
}

#[test]
fn encryption_test_wrong_password_fails() {
    let data = b"Hello, World!";
    let password = "test_password_123";
    let wrong_password = "wrong_password";
    let salt = generate_salt();

    let (ciphertext, nonce) = encrypt_data(data, password, &salt).unwrap();
    let result = decrypt_data(&ciphertext, wrong_password, &salt, &nonce);

    assert!(result.is_err());
}

#[test]
fn derived_key_depends_on_password_and_salt() {
    let salt = [7u8; 32];
    let k1 = derive_key("pw", &salt);
    let k2 = derive_key("pw", &salt);
    let k3 = derive_key("pw2", &salt);
    let k4 = derive_key("pw", &[8u8; 32]);
    assert_eq!(k1, k2);
    assert_ne!(k1, k3);
    assert_ne!(k1, k4);
    assert_ne!(k1, [0u8; 32]);
}

#[test]
fn sealed_data_differs_from_plaintext_and_carries_tag() {
    let salt = [1u8; 32];
    let nonce = [2u8; 12];
    let data = b"attack at dawn";
    let ct = encrypt_data_with_nonce(data, "pw", &salt, &nonce).unwrap();
    assert_eq!(ct.len(), data.len() + 16);
    assert_ne!(&ct[..data.len()], &data[..]);
    let again = encrypt_data_with_nonce(data, "pw", &salt, &nonce).unwrap();
    assert_eq!(ct, again);
}

#[test]
fn decrypt_data_rejects_flipped_bit() {
    let salt = generate_salt();
    let (mut ct, nonce) = encrypt_data(b"payload", "pw", &salt).unwrap();
    ct[0] ^= 0x01;
    assert_eq!(decrypt_data(&ct, "pw", &salt, &nonce), Err(EctError::AuthenticationFailed));
}

#[test]
fn decrypt_data_rejects_wrong_nonce() {
    let salt = generate_salt();
    let (ct, nonce) = encrypt_data(b"payload", "pw", &salt).unwrap();
    let mut other = nonce;
    other[11] ^= 0x80;
    assert_eq!(decrypt_data(&ct, "pw", &salt, &other), Err(EctError::AuthenticationFailed));
}

#[test]
fn salts_are_fresh() {
    assert_ne!(generate_salt(), generate_salt());
}
