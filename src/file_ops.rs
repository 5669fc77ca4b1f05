use vstd::prelude::*;
use vstd::bytes::*;

use crate::container::{
    container_bytes, container_view, header_meta_len, magic, parsed_container, read_container,
    write_container,
};
use crate::encryption::{
    aes256gcm_seal, decrypt_data, decryption_result, derived_key, encrypt_data_with_nonce,
    generate_nonce, generate_salt, MAX_PLAINTEXT_LEN, TAG_LEN,
};
use crate::error::EctError;
use crate::metadata::{
    lemma_metadata_round_trip, metadata_bytes, str_field, ContentType, Metadata, MetadataView,
    VERSION,
};

verus! {

/// The metadata record written for an encryption.
pub open spec fn metadata_for(
    name: Seq<char>,
    content_type: ContentType,
    question: Seq<char>,
    salt: Seq<u8>,
    nonce: Seq<u8>,
) -> MetadataView {
    MetadataView { nonce, salt, helper_question: question, original_name: name, content_type }
}

/// The container that encrypting `payload` with the given salt and nonce produces.
pub open spec fn sealed_container(
    payload: Seq<u8>,
    name: Seq<char>,
    content_type: ContentType,
    password: Seq<char>,
    question: Seq<char>,
    salt: Seq<u8>,
    nonce: Seq<u8>,
) -> Seq<u8> {
    container_bytes(
        metadata_bytes(metadata_for(name, content_type, question, salt, nonce)),
        aes256gcm_seal(derived_key(password, salt), nonce, payload),
    )
}

/// The sealing of `payload` under the password's key is the payload's
/// length plus the tag, as the cipher produces it.
pub open spec fn sealing_len_holds(payload: Seq<u8>, password: Seq<char>, salt: Seq<u8>, nonce: Seq<u8>) -> bool {
    aes256gcm_seal(derived_key(password, salt), nonce, payload).len() == payload.len() + TAG_LEN
}

/// The helper question and the original name leave the metadata block
/// short enough for its four-byte length field.
pub open spec fn metadata_fits(question: Seq<char>, name: Seq<char>) -> bool {
    44 + str_field(question).len() + str_field(name).len() + 4 <= u32::MAX
}

/// Why encryption refuses its inputs, if it does: an empty helper question
/// is a usage error, a payload over the cipher's limit is refused by the
/// cipher, and a question or name too long for the metadata length field is
/// a usage error.
pub open spec fn encryption_refusal(payload: Seq<u8>, question: Seq<char>, name: Seq<char>) -> Option<EctError> {
    if question.len() == 0 {
        Some(EctError::InvalidInput)
    } else if payload.len() > MAX_PLAINTEXT_LEN {
        Some(EctError::EncryptionFailed)
    } else if !metadata_fits(question, name) {
        Some(EctError::InvalidInput)
    } else {
        None
    }
}

/// The payload part of a decryption result.
pub open spec fn payload_result(r: Result<(MetadataView, Seq<u8>), EctError>) -> Result<Seq<u8>, EctError> {
    match r {
        Ok((_, p)) => Ok(p),
        Err(e) => Err(e),
    }
}

/// `r` is what decrypting container bytes `c` with `password` gives: the
/// container's structural fault, or its metadata with the plaintext that its
/// ciphertext seals under the password's key, or `AuthenticationFailed`.
pub open spec fn decryption_of(c: Seq<u8>, password: Seq<char>, r: Result<(MetadataView, Seq<u8>), EctError>) -> bool {
    match parsed_container(c) {
        Err(e) => r == Err::<(MetadataView, Seq<u8>), EctError>(e),
        Ok((v, ct)) => {
            &&& r is Ok ==> r->Ok_0.0 == v
            &&& decryption_result(derived_key(password, v.salt), v.nonce, ct, payload_result(r))
        },
    }
}

/// As `decryption_of`, for a caller that expects content of the given kind:
/// a container of the other kind is refused as `InvalidInput` before any
/// key is derived.
pub open spec fn decryption_of_kind(
    c: Seq<u8>,
    password: Seq<char>,
    kind: ContentType,
    r: Result<(MetadataView, Seq<u8>), EctError>,
) -> bool {
    match parsed_container(c) {
        Ok((v, _)) if v.content_type != kind => r == Err::<(MetadataView, Seq<u8>), EctError>(
            EctError::InvalidInput,
        ),
        _ => decryption_of(c, password, r),
    }
}

/// The metadata block's length: the fixed-size arrays, both string fields
/// and the four-byte content tag.
proof fn lemma_metadata_len(v: MetadataView)
    requires
        v.nonce.len() == 12,
        v.salt.len() == 32,
    ensures
        metadata_bytes(v).len() == 44 + str_field(v.helper_question).len() + str_field(
            v.original_name,
        ).len() + 4,
{
    lemma_auto_spec_u32_to_from_le_bytes();
}

/// Encrypts `payload` with the given salt and nonce into container bytes,
/// recording the helper question, the original name and the content type.
pub fn seal_payload(
    payload: &[u8],
    original_name: &str,
    content_type: ContentType,
    password: &str,
    helper_question: &str,
    salt: [u8; 32],
    nonce: [u8; 12],
) -> (r: Result<Vec<u8>, EctError>)
    ensures
        r is Ok ==> r->Ok_0@ == sealed_container(
            payload@,
            original_name@,
            content_type,
            password@,
            helper_question@,
            salt@,
            nonce@,
        ),
        r is Ok ==> sealing_len_holds(payload@, password@, salt@, nonce@),
        r is Ok <==> encryption_refusal(payload@, helper_question@, original_name@) is None,
        r is Err ==> Some(r->Err_0) == encryption_refusal(payload@, helper_question@, original_name@),
{
    if helper_question.is_empty() {
        return Err(EctError::InvalidInput);
    }
    let ciphertext = match encrypt_data_with_nonce(payload, password, &salt, &nonce) {
        Ok(c) => c,
        Err(e) => return Err(e),
    };
    let metadata = Metadata::new(
        nonce,
        salt,
        helper_question.to_owned(),
        original_name.to_owned(),
        content_type,
    );
    proof {
        lemma_metadata_len(metadata@);
        assert(metadata@ == metadata_for(original_name@, content_type, helper_question@, salt@, nonce@));
    }
    write_container(&metadata, ciphertext.as_slice())
}

/// Encrypts `payload` under `password` with a fresh random salt and nonce.
pub fn encrypt_payload(
    payload: &[u8],
    original_name: &str,
    content_type: ContentType,
    password: &str,
    helper_question: &str,
) -> (r: Result<Vec<u8>, EctError>)
    ensures
        r is Ok ==> exists|salt: Seq<u8>, nonce: Seq<u8>|
            salt.len() == 32 && nonce.len() == 12 && sealing_len_holds(payload@, password@, salt, nonce)
                && r->Ok_0@ == #[trigger] sealed_container(
                payload@,
                original_name@,
                content_type,
                password@,
                helper_question@,
                salt,
                nonce,
            ),
        r is Ok <==> encryption_refusal(payload@, helper_question@, original_name@) is None,
        r is Err ==> Some(r->Err_0) == encryption_refusal(payload@, helper_question@, original_name@),
{
    let salt = generate_salt();
    let nonce = generate_nonce();
    let r = seal_payload(payload, original_name, content_type, password, helper_question, salt, nonce);
    proof {
        if r is Ok {
            assert(r->Ok_0@ == sealed_container(
                payload@,
                original_name@,
                content_type,
                password@,
                helper_question@,
                salt@,
                nonce@,
            ));
        }
    }
    r
}

/// Encrypts one file's bytes, recorded as `File` content under its name.
pub fn encrypt_file(data: &[u8], original_name: &str, password: &str, helper_question: &str) -> (r: Result<Vec<u8>, EctError>)
    ensures
        r is Ok ==> exists|salt: Seq<u8>, nonce: Seq<u8>|
            salt.len() == 32 && nonce.len() == 12 && sealing_len_holds(data@, password@, salt, nonce)
                && r->Ok_0@ == #[trigger] sealed_container(
                data@,
                original_name@,
                ContentType::File,
                password@,
                helper_question@,
                salt,
                nonce,
            ),
        r is Ok <==> encryption_refusal(data@, helper_question@, original_name@) is None,
        r is Err ==> Some(r->Err_0) == encryption_refusal(data@, helper_question@, original_name@),
{
    encrypt_payload(data, original_name, ContentType::File, password, helper_question)
}

/// Encrypts a directory's archive bytes, recorded as `Folder` content under
/// the directory's name.
pub fn encrypt_folder(archive: &[u8], original_name: &str, password: &str, helper_question: &str) -> (r: Result<Vec<u8>, EctError>)
    ensures
        r is Ok ==> exists|salt: Seq<u8>, nonce: Seq<u8>|
            salt.len() == 32 && nonce.len() == 12 && sealing_len_holds(archive@, password@, salt, nonce)
                && r->Ok_0@ == #[trigger] sealed_container(
                archive@,
                original_name@,
                ContentType::Folder,
                password@,
                helper_question@,
                salt,
                nonce,
            ),
        r is Ok <==> encryption_refusal(archive@, helper_question@, original_name@) is None,
        r is Err ==> Some(r->Err_0) == encryption_refusal(archive@, helper_question@, original_name@),
{
    encrypt_payload(archive, original_name, ContentType::Folder, password, helper_question)
}

/// Decrypts container bytes: parses them, derives the key from `password`
/// and the stored salt, and opens the ciphertext.
pub fn decrypt_payload(container: &[u8], password: &str) -> (r: Result<(Metadata, Vec<u8>), EctError>)
    ensures
        decryption_of(container@, password@, container_view(r)),
{
    let (metadata, ciphertext) = match read_container(container) {
        Ok(p) => p,
        Err(e) => return Err(e),
    };
    match decrypt_data(ciphertext.as_slice(), password, &metadata.salt, &metadata.nonce) {
        Ok(plaintext) => Ok((metadata, plaintext)),
        Err(e) => Err(e),
    }
}

/// Decrypts container bytes that are expected to hold content of `kind`.
fn decrypt_kind(container: &[u8], password: &str, kind: ContentType) -> (r: Result<(Metadata, Vec<u8>), EctError>)
    ensures
        decryption_of_kind(container@, password@, kind, container_view(r)),
{
    let (metadata, ciphertext) = match read_container(container) {
        Ok(p) => p,
        Err(e) => return Err(e),
    };
    if metadata.content_type != kind {
        return Err(EctError::InvalidInput);
    }
    match decrypt_data(ciphertext.as_slice(), password, &metadata.salt, &metadata.nonce) {
        Ok(plaintext) => Ok((metadata, plaintext)),
        Err(e) => Err(e),
    }
}

/// Decrypts a container of `File` content: the metadata and the file's bytes.
pub fn decrypt_file(container: &[u8], password: &str) -> (r: Result<(Metadata, Vec<u8>), EctError>)
    ensures
        decryption_of_kind(container@, password@, ContentType::File, container_view(r)),
{
    decrypt_kind(container, password, ContentType::File)
}

/// Decrypts a container of `Folder` content: the metadata and the
/// directory's archive bytes.
pub fn decrypt_folder(container: &[u8], password: &str) -> (r: Result<(Metadata, Vec<u8>), EctError>)
    ensures
        decryption_of_kind(container@, password@, ContentType::Folder, container_view(r)),
{
    decrypt_kind(container, password, ContentType::Folder)
}

/// Reading back a container that encryption wrote gives its metadata record
/// and its ciphertext.
pub proof fn lemma_parse_sealed(
    payload: Seq<u8>,
    name: Seq<char>,
    content_type: ContentType,
    password: Seq<char>,
    question: Seq<char>,
    salt: Seq<u8>,
    nonce: Seq<u8>,
)
    requires
        salt.len() == 32,
        nonce.len() == 12,
        metadata_fits(question, name),
    ensures
        parsed_container(sealed_container(payload, name, content_type, password, question, salt, nonce))
            == Ok::<(MetadataView, Seq<u8>), EctError>((
            metadata_for(name, content_type, question, salt, nonce),
            aes256gcm_seal(derived_key(password, salt), nonce, payload),
        )),
{
    lemma_auto_spec_u32_to_from_le_bytes();
    let v = metadata_for(name, content_type, question, salt, nonce);
    let mb = metadata_bytes(v);
    let ct = aes256gcm_seal(derived_key(password, salt), nonce, payload);
    let c = sealed_container(payload, name, content_type, password, question, salt, nonce);
    lemma_metadata_len(v);
    lemma_metadata_round_trip(v);
    let lb = spec_u32_to_le_bytes(mb.len() as u32);
    assert(c.subrange(0, 4) =~= magic());
    assert(c[4] == VERSION);
    assert(c.subrange(5, 9) =~= lb);
    assert(c.subrange(9, 9 + mb.len() as int) =~= mb);
    assert(c.subrange(9 + mb.len() as int, c.len() as int) =~= ct);
}

/// Round trip: decrypting, with the same password, a container that
/// encryption produced gives back the payload and the recorded metadata,
/// for every payload the cipher accepts, the empty one included.
pub proof fn lemma_round_trip(
    payload: Seq<u8>,
    name: Seq<char>,
    content_type: ContentType,
    password: Seq<char>,
    question: Seq<char>,
    salt: Seq<u8>,
    nonce: Seq<u8>,
    r: Result<(MetadataView, Seq<u8>), EctError>,
)
    requires
        salt.len() == 32,
        nonce.len() == 12,
        encryption_refusal(payload, question, name) is None,
        sealing_len_holds(payload, password, salt, nonce),
        decryption_of(
            sealed_container(payload, name, content_type, password, question, salt, nonce),
            password,
            r,
        ),
    ensures
        r == Ok::<(MetadataView, Seq<u8>), EctError>(
            (metadata_for(name, content_type, question, salt, nonce), payload),
        ),
{
    lemma_parse_sealed(payload, name, content_type, password, question, salt, nonce);
    let key = derived_key(password, salt);
    assert(crate::encryption::opens_to(key, nonce, aes256gcm_seal(key, nonce, payload), payload));
}

/// Another password: decrypting a container that encryption produced with a
/// different password either fails with `AuthenticationFailed` or gives a
/// plaintext whose sealing under that other password's key is exactly the
/// stored ciphertext; it never reports another error.
pub proof fn lemma_other_password(
    payload: Seq<u8>,
    name: Seq<char>,
    content_type: ContentType,
    password: Seq<char>,
    other: Seq<char>,
    question: Seq<char>,
    salt: Seq<u8>,
    nonce: Seq<u8>,
    r: Result<(MetadataView, Seq<u8>), EctError>,
)
    requires
        salt.len() == 32,
        nonce.len() == 12,
        encryption_refusal(payload, question, name) is None,
        decryption_of(
            sealed_container(payload, name, content_type, password, question, salt, nonce),
            other,
            r,
        ),
    ensures
        r is Err ==> r == Err::<(MetadataView, Seq<u8>), EctError>(EctError::AuthenticationFailed),
        r is Ok ==> aes256gcm_seal(derived_key(other, salt), nonce, r->Ok_0.1) == aes256gcm_seal(
            derived_key(password, salt),
            nonce,
            payload,
        ),
{
    lemma_parse_sealed(payload, name, content_type, password, question, salt, nonce);
}

/// Fresh draws: two encryptions of the same payload under the same password,
/// name and helper question, whose salt or nonce draws differ, produce
/// different containers, and each container records its own salt and nonce.
pub proof fn lemma_fresh_draws_differ(
    payload: Seq<u8>,
    name: Seq<char>,
    content_type: ContentType,
    password: Seq<char>,
    question: Seq<char>,
    salt1: Seq<u8>,
    nonce1: Seq<u8>,
    salt2: Seq<u8>,
    nonce2: Seq<u8>,
)
    requires
        salt1.len() == 32,
        nonce1.len() == 12,
        salt2.len() == 32,
        nonce2.len() == 12,
        salt1 != salt2 || nonce1 != nonce2,
        encryption_refusal(payload, question, name) is None,
    ensures
        parsed_container(sealed_container(payload, name, content_type, password, question, salt1, nonce1))->Ok_0.0.salt == salt1,
        parsed_container(sealed_container(payload, name, content_type, password, question, salt1, nonce1))->Ok_0.0.nonce == nonce1,
        parsed_container(sealed_container(payload, name, content_type, password, question, salt2, nonce2))->Ok_0.0.salt == salt2,
        parsed_container(sealed_container(payload, name, content_type, password, question, salt2, nonce2))->Ok_0.0.nonce == nonce2,
        sealed_container(payload, name, content_type, password, question, salt1, nonce1)
            != sealed_container(payload, name, content_type, password, question, salt2, nonce2),
{
    lemma_parse_sealed(payload, name, content_type, password, question, salt1, nonce1);
    lemma_parse_sealed(payload, name, content_type, password, question, salt2, nonce2);
}

/// Changing a byte past the metadata block leaves a readable container
/// readable, with the same metadata and the changed ciphertext.
proof fn lemma_parse_after_ciphertext_change(c: Seq<u8>, i: int, y: u8)
    requires
        parsed_container(c) is Ok,
        9 + header_meta_len(c) <= i < c.len(),
    ensures
        parsed_container(c.update(i, y)) == Ok::<(MetadataView, Seq<u8>), EctError>((
            parsed_container(c)->Ok_0.0,
            c.update(i, y).subrange(9 + header_meta_len(c), c.len() as int),
        )),
{
    let d = c.update(i, y);
    let n = header_meta_len(c);
    assert(d.subrange(0, 4) =~= c.subrange(0, 4));
    assert(d.subrange(5, 9) =~= c.subrange(5, 9));
    assert(header_meta_len(d) == n);
    assert(d.subrange(9, 9 + n) =~= c.subrange(9, 9 + n));
}

/// Flipping one bit of a byte changes it.
proof fn lemma_flip_changes(x: u8, bit: u8)
    requires
        bit < 8,
    ensures
        x ^ (1u8 << bit) != x,
{
    assert(x ^ (1u8 << bit) != x) by (bit_vector)
        requires
            bit < 8,
    ;
}

/// Ciphertext corruption: flipping any one bit in the ciphertext region of a
/// container `c` that encryption produced leaves its metadata readable, and
/// decryption with the right password then either fails with
/// `AuthenticationFailed` or gives a plaintext other than the one encrypted.
pub proof fn lemma_ciphertext_bit_flip(
    payload: Seq<u8>,
    name: Seq<char>,
    content_type: ContentType,
    password: Seq<char>,
    question: Seq<char>,
    salt: Seq<u8>,
    nonce: Seq<u8>,
    c: Seq<u8>,
    i: int,
    bit: u8,
    r: Result<(MetadataView, Seq<u8>), EctError>,
)
    requires
        salt.len() == 32,
        nonce.len() == 12,
        encryption_refusal(payload, question, name) is None,
        c == sealed_container(payload, name, content_type, password, question, salt, nonce),
        9 + metadata_bytes(metadata_for(name, content_type, question, salt, nonce)).len() <= i < c.len(),
        bit < 8,
        decryption_of(c.update(i, c[i] ^ (1u8 << bit)), password, r),
    ensures
        r is Err ==> r == Err::<(MetadataView, Seq<u8>), EctError>(EctError::AuthenticationFailed),
        r is Ok ==> r->Ok_0.0 == metadata_for(name, content_type, question, salt, nonce)
            && r->Ok_0.1 != payload,
{
    let v = metadata_for(name, content_type, question, salt, nonce);
    let key = derived_key(password, salt);
    let ct = aes256gcm_seal(key, nonce, payload);
    lemma_parse_sealed(payload, name, content_type, password, question, salt, nonce);
    assert(parsed_container(c) == Ok::<(MetadataView, Seq<u8>), EctError>((v, ct)));
    let n = header_meta_len(c);
    assert(n == metadata_bytes(v).len()) by {
        lemma_auto_spec_u32_to_from_le_bytes();
        lemma_metadata_len(v);
        assert(c.subrange(5, 9) =~= spec_u32_to_le_bytes(metadata_bytes(v).len() as u32));
    }
    assert(ct =~= c.subrange(9 + n, c.len() as int));
    let y = c[i] ^ (1u8 << bit);
    lemma_flip_changes(c[i], bit);
    lemma_parse_after_ciphertext_change(c, i, y);
    let d = c.update(i, y);
    let ct2 = d.subrange(9 + n, c.len() as int);
    assert(parsed_container(d) == Ok::<(MetadataView, Seq<u8>), EctError>((v, ct2)));
    assert(ct2[i - 9 - n] != ct[i - 9 - n]);
    assert(ct != ct2);
    if r is Ok {
        assert(crate::encryption::opens_to(key, nonce, ct2, r->Ok_0.1));
    }
}

/// Header corruption: in container bytes whose magic tag and version are
/// intact, flipping any one bit of the magic tag makes them
/// `CorruptedFormat`, and flipping any one bit of the version byte makes them
/// `UnsupportedVersion` carrying the byte read.
pub proof fn lemma_header_bit_flip(c: Seq<u8>, i: int, bit: u8)
    requires
        c.len() >= 9,
        c.subrange(0, 4) == magic(),
        c[4] == VERSION,
        0 <= i < 5,
        bit < 8,
    ensures
        i < 4 ==> parsed_container(c.update(i, c[i] ^ (1u8 << bit))) == Err::<
            (MetadataView, Seq<u8>),
            EctError,
        >(EctError::CorruptedFormat),
        i == 4 ==> parsed_container(c.update(i, c[i] ^ (1u8 << bit))) == Err::<
            (MetadataView, Seq<u8>),
            EctError,
        >(EctError::UnsupportedVersion(c[4] ^ (1u8 << bit))),
{
    let x = c[i];
    let y = x ^ (1u8 << bit);
    assert(y != x) by (bit_vector)
        requires
            bit < 8,
            y == x ^ (1u8 << bit),
    ;
    let d = c.update(i, y);
    if i < 4 {
        assert(d.subrange(0, 4)[i] == y);
        assert(magic()[i] == c.subrange(0, 4)[i]);
        assert(d.subrange(0, 4) != magic());
    } else {
        assert(d.subrange(0, 4) =~= c.subrange(0, 4));
    }
}

} // verus!
