use vstd::prelude::*;
use vstd::bytes::*;
use vstd::string::*;
use vstd::utf8::*;

use crate::error::EctError;

verus! {

broadcast use vstd::utf8::encode_utf8_decode_utf8;

/// The four bytes every container starts with.
pub const MAGIC_BYTES: [u8; 4] = [0x45, 0x43, 0x54, 0x46];

/// The one container format version this library reads and writes.
pub const VERSION: u8 = 0x01;

/// Whether the sealed payload is one file's bytes or an archived directory.
#[derive(Clone, Copy, Debug, PartialEq, Eq, Structural)]
pub enum ContentType {
    File,
    Folder,
}

/// The record stored in the clear inside every container.
#[derive(Clone, Debug)]
pub struct Metadata {
    pub nonce: [u8; 12],
    pub salt: [u8; 32],
    pub helper_question: String,
    pub original_name: String,
    pub content_type: ContentType,
}

/// The mathematical value of a `Metadata` record.
pub ghost struct MetadataView {
    pub nonce: Seq<u8>,
    pub salt: Seq<u8>,
    pub helper_question: Seq<char>,
    pub original_name: Seq<char>,
    pub content_type: ContentType,
}

impl View for Metadata {
    type V = MetadataView;

    open spec fn view(&self) -> MetadataView {
        MetadataView {
            nonce: self.nonce@,
            salt: self.salt@,
            helper_question: self.helper_question@,
            original_name: self.original_name@,
            content_type: self.content_type,
        }
    }
}

/// The index under which a content type is written: its variant number.
pub open spec fn content_tag(c: ContentType) -> u32 {
    match c {
        ContentType::File => 0,
        ContentType::Folder => 1,
    }
}

/// A string field: its UTF-8 length in eight little-endian bytes, then its UTF-8 bytes.
pub open spec fn str_field(s: Seq<char>) -> Seq<u8> {
    spec_u64_to_le_bytes(encode_utf8(s).len() as u64) + encode_utf8(s)
}

/// The bytes of a record with the given fields, in declaration order.
pub open spec fn record_bytes(
    nonce: Seq<u8>,
    salt: Seq<u8>,
    question: Seq<char>,
    name: Seq<char>,
    tag: u32,
) -> Seq<u8> {
    nonce + salt + str_field(question) + str_field(name) + spec_u32_to_le_bytes(tag)
}

/// A string whose UTF-8 length can be written in the eight-byte length field.
pub open spec fn encodable_str(s: Seq<char>) -> bool {
    encode_utf8(s).len() <= u64::MAX
}

/// A record view whose arrays have their fixed sizes and whose strings can be encoded.
pub open spec fn encodable(v: MetadataView) -> bool {
    &&& v.nonce.len() == 12
    &&& v.salt.len() == 32
    &&& encodable_str(v.helper_question)
    &&& encodable_str(v.original_name)
}

/// The serialized form of a metadata record.
pub open spec fn metadata_bytes(v: MetadataView) -> Seq<u8> {
    record_bytes(v.nonce, v.salt, v.helper_question, v.original_name, content_tag(v.content_type))
}

/// `b` starts with the serialized form of `v`.
pub open spec fn encodes(b: Seq<u8>, v: MetadataView) -> bool {
    encodable(v) && metadata_bytes(v).is_prefix_of(b)
}

/// The record that `b` starts with, if any.
pub open spec fn decoded_metadata(b: Seq<u8>) -> Option<MetadataView> {
    if exists|v: MetadataView| encodes(b, v) {
        Some(choose|v: MetadataView| encodes(b, v))
    } else {
        None
    }
}

#[verifier::external_type_specification]
#[verifier::external_body]
pub struct ExBincodeErrorKind(bincode::ErrorKind);

/// Relies on bincode::serialize (fixed-width little-endian integers): byte
/// arrays are written byte by byte, a string as its UTF-8 length in eight
/// bytes followed by its UTF-8 bytes, a `u32` in four bytes, tuple fields in
/// order. With no size limit and a vector to write to, it does not fail.
#[verifier::external_body]
fn bincode_encode_record(
    nonce: &[u8; 12],
    salt: &[u8; 32],
    question: &String,
    name: &String,
    tag: u32,
) -> (r: Result<Vec<u8>, Box<bincode::ErrorKind>>)
    ensures
        r is Ok,
        r is Ok ==> r->Ok_0@ == record_bytes(nonce@, salt@, question@, name@, tag),
{
    bincode::serialize(&(nonce, salt, question, name, tag))
}

/// Relies on bincode::deserialize (fixed-width little-endian integers,
/// trailing bytes allowed): it succeeds exactly on data that starts with such
/// a record, and returns that record's fields.
#[verifier::external_body]
fn bincode_decode_record(b: &[u8]) -> (r: Result<
    ([u8; 12], [u8; 32], String, String, u32),
    Box<bincode::ErrorKind>,
>)
    ensures
        r is Ok ==> record_bytes(
            r->Ok_0.0@,
            r->Ok_0.1@,
            r->Ok_0.2@,
            r->Ok_0.3@,
            r->Ok_0.4,
        ).is_prefix_of(b@),
        forall|nonce: Seq<u8>, salt: Seq<u8>, q: Seq<char>, n: Seq<char>, tag: u32|
            nonce.len() == 12 && salt.len() == 32 && encodable_str(q) && encodable_str(n)
                && #[trigger] record_bytes(nonce, salt, q, n, tag).is_prefix_of(b@) ==> {
                &&& r is Ok
                &&& r->Ok_0.0@ == nonce
                &&& r->Ok_0.1@ == salt
                &&& r->Ok_0.2@ == q
                &&& r->Ok_0.3@ == n
                &&& r->Ok_0.4 == tag
            },
{
    bincode::deserialize(b)
}

impl Metadata {
    pub fn new(
        nonce: [u8; 12],
        salt: [u8; 32],
        helper_question: String,
        original_name: String,
        content_type: ContentType,
    ) -> (r: Self)
        ensures
            r@ == (MetadataView {
                nonce: nonce@,
                salt: salt@,
                helper_question: helper_question@,
                original_name: original_name@,
                content_type,
            }),
    {
        Metadata { nonce, salt, helper_question, original_name, content_type }
    }

    /// The record's bytes.
    pub fn serialize(&self) -> (r: Result<Vec<u8>, EctError>)
        ensures
            r is Ok,
            r is Ok ==> r->Ok_0@ == metadata_bytes(self@),
    {
        let tag: u32 = match self.content_type {
            ContentType::File => 0,
            ContentType::Folder => 1,
        };
        match bincode_encode_record(
            &self.nonce,
            &self.salt,
            &self.helper_question,
            &self.original_name,
            tag,
        ) {
            Ok(b) => Ok(b),
            Err(_) => Err(EctError::EncryptionFailed),
        }
    }

    /// Reads the record that `data` starts with.
    pub fn deserialize(data: &[u8]) -> (r: Result<Metadata, EctError>)
        ensures
            r is Ok <==> decoded_metadata(data@) is Some,
            r is Ok ==> decoded_metadata(data@) == Some(r->Ok_0@),
            r is Err ==> r->Err_0 == EctError::CorruptedMetadata,
    {
        // The data's length bounds the lengths of the strings it holds.
        let _len = data.len();
        let decoded = bincode_decode_record(data);
        match decoded {
            Ok((nonce, salt, helper_question, original_name, tag)) if tag <= 1 => {
                let content_type = if tag == 0 {
                    ContentType::File
                } else {
                    ContentType::Folder
                };
                let m = Metadata { nonce, salt, helper_question, original_name, content_type };
                proof {
                    lemma_encoded_len(m@);
                    assert(encodes(data@, m@));
                    let w = choose|w: MetadataView| encodes(data@, w);
                    assert(record_bytes(w.nonce, w.salt, w.helper_question, w.original_name, content_tag(w.content_type)).is_prefix_of(data@));
                    assert(w == m@);
                }
                Ok(m)
            },
            _ => {
                proof {
                    assert forall|v: MetadataView| !encodes(data@, v) by {
                        if encodes(data@, v) {
                            assert(record_bytes(v.nonce, v.salt, v.helper_question, v.original_name, content_tag(v.content_type)).is_prefix_of(data@));
                        }
                    }
                }
                Err(EctError::CorruptedMetadata)
            },
        }
    }
}

/// The serialized form is at least as long as each of its string parts.
proof fn lemma_encoded_len(v: MetadataView)
    ensures
        metadata_bytes(v).len() >= encode_utf8(v.helper_question).len() + encode_utf8(v.original_name).len(),
{
    vstd::bytes::lemma_auto_spec_u64_to_from_le_bytes();
    vstd::bytes::lemma_auto_spec_u32_to_from_le_bytes();
}

/// Splitting a prefix: both halves of a prefix sit at their places in `b`.
proof fn lemma_prefix_split(a: Seq<u8>, c: Seq<u8>, b: Seq<u8>)
    requires
        (a + c).is_prefix_of(b),
    ensures
        a.is_prefix_of(b),
        c.is_prefix_of(b.subrange(a.len() as int, b.len() as int)),
{
    assert(a =~= (a + c).subrange(0, a.len() as int));
    assert(c =~= (a + c).subrange(a.len() as int, (a + c).len() as int));
    assert(a =~= b.subrange(0, a.len() as int));
    assert(c =~= b.subrange(a.len() as int, b.len() as int).subrange(0, c.len() as int));
}

/// Two prefixes of the same bytes, of equal length, are equal.
proof fn lemma_prefix_same_len(a: Seq<u8>, c: Seq<u8>, b: Seq<u8>)
    requires
        a.is_prefix_of(b),
        c.is_prefix_of(b),
        a.len() == c.len(),
    ensures
        a == c,
{
    assert(a =~= c);
}

/// A string field determines its string.
proof fn lemma_str_field_unique(b: Seq<u8>, p: Seq<char>, q: Seq<char>)
    requires
        encodable_str(p),
        encodable_str(q),
        str_field(p).is_prefix_of(b),
        str_field(q).is_prefix_of(b),
    ensures
        p == q,
{
    lemma_auto_spec_u64_to_from_le_bytes();
    let ep = encode_utf8(p);
    let eq = encode_utf8(q);
    let lp = spec_u64_to_le_bytes(ep.len() as u64);
    let lq = spec_u64_to_le_bytes(eq.len() as u64);
    lemma_prefix_split(lp, ep, b);
    lemma_prefix_split(lq, eq, b);
    lemma_prefix_same_len(lp, lq, b);
    assert(ep.len() as u64 == spec_u64_from_le_bytes(lp));
    assert(eq.len() as u64 == spec_u64_from_le_bytes(lq));
    let rest = b.subrange(8, b.len() as int);
    lemma_prefix_same_len(ep, eq, rest);
    assert(decode_utf8(ep) == p);
    assert(decode_utf8(eq) == q);
}

/// The bytes of a record determine the record.
proof fn lemma_encodes_unique(b: Seq<u8>, v: MetadataView, w: MetadataView)
    requires
        encodes(b, v),
        encodes(b, w),
    ensures
        v == w,
{
    lemma_auto_spec_u32_to_from_le_bytes();
    let tv = spec_u32_to_le_bytes(content_tag(v.content_type));
    let tw = spec_u32_to_le_bytes(content_tag(w.content_type));
    let hv = v.nonce + v.salt + str_field(v.helper_question) + str_field(v.original_name);
    let hw = w.nonce + w.salt + str_field(w.helper_question) + str_field(w.original_name);
    lemma_prefix_split(hv, tv, b);
    lemma_prefix_split(hw, tw, b);
    let gv = v.nonce + v.salt + str_field(v.helper_question);
    let gw = w.nonce + w.salt + str_field(w.helper_question);
    lemma_prefix_split(gv, str_field(v.original_name), b);
    lemma_prefix_split(gw, str_field(w.original_name), b);
    let fv = v.nonce + v.salt;
    let fw = w.nonce + w.salt;
    lemma_prefix_split(fv, str_field(v.helper_question), b);
    lemma_prefix_split(fw, str_field(w.helper_question), b);
    lemma_prefix_split(v.nonce, v.salt, b);
    lemma_prefix_split(w.nonce, w.salt, b);
    lemma_prefix_same_len(v.nonce, w.nonce, b);
    let b1 = b.subrange(12, b.len() as int);
    lemma_prefix_same_len(v.salt, w.salt, b1);
    let b2 = b.subrange(44, b.len() as int);
    lemma_str_field_unique(b2, v.helper_question, w.helper_question);
    assert(gv.len() == gw.len());
    let b3 = b.subrange(gv.len() as int, b.len() as int);
    lemma_str_field_unique(b3, v.original_name, w.original_name);
    assert(hv.len() == hw.len());
    let b4 = b.subrange(hv.len() as int, b.len() as int);
    lemma_prefix_same_len(tv, tw, b4);
    assert(content_tag(v.content_type) == spec_u32_from_le_bytes(tv));
    assert(content_tag(w.content_type) == spec_u32_from_le_bytes(tw));
}

/// Serialization round trip: reading back the serialized form of a record
/// gives the same record, nonce, salt, helper question, original name and
/// content type alike, whatever characters the strings hold.
pub proof fn lemma_metadata_round_trip(v: MetadataView)
    requires
        encodable(v),
    ensures
        decoded_metadata(metadata_bytes(v)) == Some(v),
{
    let b = metadata_bytes(v);
    assert(b.is_prefix_of(b)) by {
        assert(b =~= b.subrange(0, b.len() as int));
    }
    assert(encodes(b, v));
    let w = choose|w: MetadataView| encodes(b, w);
    lemma_encodes_unique(b, v, w);
}

} // verus!
