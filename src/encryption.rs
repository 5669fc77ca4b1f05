use vstd::prelude::*;

use aes_gcm::aead::{Aead, AeadCore, KeyInit, OsRng};
use aes_gcm::{Aes256Gcm, Key, Nonce};

use crate::error::EctError;

verus! {

/// Rounds of the password-based key derivation.
pub const PBKDF2_ITERATIONS: u32 = 100000;

/// The longest plaintext AES-256-GCM accepts, in bytes.
pub const MAX_PLAINTEXT_LEN: u64 = 68719476736;

/// The 32-byte key that PBKDF2-HMAC-SHA256 derives from a password's UTF-8
/// bytes and a salt in the given number of rounds.
pub uninterp spec fn pbkdf2_sha256(password: Seq<char>, salt: Seq<u8>, rounds: u32) -> Seq<u8>;

/// The ciphertext followed by its 16-byte tag that AES-256-GCM produces from
/// a key, a nonce and a plaintext, with no associated data.
pub uninterp spec fn aes256gcm_seal(key: Seq<u8>, nonce: Seq<u8>, plaintext: Seq<u8>) -> Seq<u8>;

/// The length of the authentication tag appended to every ciphertext.
pub const TAG_LEN: u64 = 16;

/// A plaintext that `ct` seals under `key` and `nonce`.
pub open spec fn opens_to(key: Seq<u8>, nonce: Seq<u8>, ct: Seq<u8>, pt: Seq<u8>) -> bool {
    &&& pt.len() <= MAX_PLAINTEXT_LEN
    &&& ct.len() == pt.len() + TAG_LEN
    &&& aes256gcm_seal(key, nonce, pt) == ct
}

/// A byte vector result seen as a byte sequence result.
pub open spec fn bytes_result(r: Result<Vec<u8>, EctError>) -> Result<Seq<u8>, EctError> {
    match r {
        Ok(v) => Ok(v@),
        Err(e) => Err(e),
    }
}

/// `r` is what authenticated decryption of `ct` gives: the plaintext that
/// `ct` seals, or `AuthenticationFailed` where it seals none.
pub open spec fn decryption_result(
    key: Seq<u8>,
    nonce: Seq<u8>,
    ct: Seq<u8>,
    r: Result<Seq<u8>, EctError>,
) -> bool {
    &&& r is Ok ==> opens_to(key, nonce, ct, r->Ok_0)
    &&& forall|pt: Seq<u8>| #[trigger] opens_to(key, nonce, ct, pt) ==> r == Ok::<Seq<u8>, EctError>(pt)
    &&& r is Err ==> r->Err_0 == EctError::AuthenticationFailed
}

/// The key derived from a password and a salt.
pub open spec fn derived_key(password: Seq<char>, salt: Seq<u8>) -> Seq<u8> {
    pbkdf2_sha256(password, salt, PBKDF2_ITERATIONS)
}

#[verifier::external_type_specification]
#[verifier::external_body]
pub struct ExAeadError(aes_gcm::Error);

/// Relies on pbkdf2::pbkdf2_hmac with sha2::Sha256, filling a 32-byte key;
/// with HMAC it never fails.
#[verifier::external_body]
fn pbkdf2_hmac_sha256(password: &str, salt: &[u8; 32], rounds: u32) -> (r: [u8; 32])
    ensures
        r@ == pbkdf2_sha256(password@, salt@, rounds),
{
    let mut key = [0u8; 32];
    pbkdf2::pbkdf2_hmac::<sha2::Sha256>(password.as_bytes(), salt, rounds, &mut key);
    key
}

/// Relies on rand::thread_rng, a cryptographically secure generator, to fill
/// 32 bytes. Nothing is known of the bytes.
#[verifier::external_body]
pub fn generate_salt() -> (r: [u8; 32]) {
    let mut salt = [0u8; 32];
    rand::RngCore::fill_bytes(&mut rand::thread_rng(), &mut salt);
    salt
}

/// Relies on AeadCore::generate_nonce of Aes256Gcm with the operating
/// system's generator. Nothing is known of the bytes.
#[verifier::external_body]
pub(crate) fn generate_nonce() -> (r: [u8; 12]) {
    let nonce = Aes256Gcm::generate_nonce(&mut OsRng);
    let mut out = [0u8; 12];
    out.copy_from_slice(nonce.as_slice());
    out
}

/// Relies on Aead::encrypt of Aes256Gcm: it refuses a plaintext longer than
/// 2^36 bytes and otherwise returns the sealed plaintext, a ciphertext of the
/// plaintext's length followed by a 16-byte tag.
#[verifier::external_body]
fn aes_seal(key: &[u8; 32], nonce: &[u8; 12], plaintext: &[u8]) -> (r: Result<Vec<u8>, aes_gcm::Error>)
    ensures
        r is Ok <==> plaintext@.len() <= MAX_PLAINTEXT_LEN,
        r is Ok ==> r->Ok_0@ == aes256gcm_seal(key@, nonce@, plaintext@),
        r is Ok ==> r->Ok_0@.len() == plaintext@.len() + TAG_LEN,
{
    let cipher = Aes256Gcm::new(Key::<Aes256Gcm>::from_slice(key));
    cipher.encrypt(Nonce::from_slice(nonce), plaintext)
}

/// Relies on Aead::decrypt of Aes256Gcm, on inputs of at most 2^36 + 16
/// bytes: it succeeds only where the tag authenticates, that is where the
/// input is the sealing of the plaintext it returns, and on the sealing of
/// any plaintext it returns that plaintext.
#[verifier::external_body]
fn aes_open(key: &[u8; 32], nonce: &[u8; 12], ciphertext: &[u8]) -> (r: Result<Vec<u8>, aes_gcm::Error>)
    requires
        ciphertext@.len() <= MAX_PLAINTEXT_LEN + TAG_LEN,
    ensures
        r is Ok ==> opens_to(key@, nonce@, ciphertext@, r->Ok_0@),
        forall|pt: Seq<u8>| #[trigger] opens_to(key@, nonce@, ciphertext@, pt) ==> r is Ok && r->Ok_0@ == pt,
{
    let cipher = Aes256Gcm::new(Key::<Aes256Gcm>::from_slice(key));
    cipher.decrypt(Nonce::from_slice(nonce), ciphertext)
}

/// Derives the 32-byte key for a password and a salt.
pub fn derive_key(password: &str, salt: &[u8; 32]) -> (r: [u8; 32])
    ensures
        r@ == derived_key(password@, salt@),
{
    pbkdf2_hmac_sha256(password, salt, PBKDF2_ITERATIONS)
}

/// Seals `data` under the key derived from `password` and `salt`, with the
/// given nonce.
pub fn encrypt_data_with_nonce(data: &[u8], password: &str, salt: &[u8; 32], nonce: &[u8; 12]) -> (r: Result<Vec<u8>, EctError>)
    ensures
        r is Ok <==> data@.len() <= MAX_PLAINTEXT_LEN,
        r is Ok ==> r->Ok_0@ == aes256gcm_seal(derived_key(password@, salt@), nonce@, data@),
        r is Ok ==> r->Ok_0@.len() == data@.len() + TAG_LEN,
        r is Err ==> r->Err_0 == EctError::EncryptionFailed,
{
    let key = derive_key(password, salt);
    match aes_seal(&key, nonce, data) {
        Ok(ct) => Ok(ct),
        Err(_) => Err(EctError::EncryptionFailed),
    }
}

/// Seals `data` under the key derived from `password` and `salt`, with a
/// fresh random nonce, which it returns beside the ciphertext.
pub fn encrypt_data(data: &[u8], password: &str, salt: &[u8; 32]) -> (r: Result<(Vec<u8>, [u8; 12]), EctError>)
    ensures
        r is Ok <==> data@.len() <= MAX_PLAINTEXT_LEN,
        r is Ok ==> r->Ok_0.0@ == aes256gcm_seal(derived_key(password@, salt@), r->Ok_0.1@, data@),
        r is Ok ==> r->Ok_0.0@.len() == data@.len() + TAG_LEN,
        r is Err ==> r->Err_0 == EctError::EncryptionFailed,
{
    let nonce = generate_nonce();
    match encrypt_data_with_nonce(data, password, salt, &nonce) {
        Ok(ct) => Ok((ct, nonce)),
        Err(e) => Err(e),
    }
}

/// Opens `ciphertext` under the key derived from `password` and `salt`; any
/// failure to authenticate, a ciphertext too long to be a sealing included,
/// is `AuthenticationFailed`.
pub fn decrypt_data(ciphertext: &[u8], password: &str, salt: &[u8; 32], nonce: &[u8; 12]) -> (r: Result<Vec<u8>, EctError>)
    ensures
        decryption_result(derived_key(password@, salt@), nonce@, ciphertext@, bytes_result(r)),
{
    if ciphertext.len() as u64 > MAX_PLAINTEXT_LEN + TAG_LEN {
        return Err(EctError::AuthenticationFailed);
    }
    let key = derive_key(password, salt);
    match aes_open(&key, nonce, ciphertext) {
        Ok(pt) => Ok(pt),
        Err(_) => Err(EctError::AuthenticationFailed),
    }
}

/// Opening what was sealed: authenticated decryption of the sealing of a
/// plaintext gives back that plaintext, under any key and nonce.
pub proof fn lemma_open_sealed(key: Seq<u8>, nonce: Seq<u8>, pt: Seq<u8>, r: Result<Seq<u8>, EctError>)
    requires
        pt.len() <= MAX_PLAINTEXT_LEN,
        aes256gcm_seal(key, nonce, pt).len() == pt.len() + TAG_LEN,
        decryption_result(key, nonce, aes256gcm_seal(key, nonce, pt), r),
    ensures
        r == Ok::<Seq<u8>, EctError>(pt),
{
    assert(opens_to(key, nonce, aes256gcm_seal(key, nonce, pt), pt));
}

} // verus!
