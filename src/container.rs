use vstd::prelude::*;
use vstd::bytes::*;

use crate::error::EctError;
use crate::metadata::{
    decoded_metadata, metadata_bytes, Metadata, MetadataView, MAGIC_BYTES, VERSION,
};

verus! {

/// Length of the fixed header: magic tag, version, metadata length.
pub const HEADER_LEN: usize = 9;

/// The magic tag as a sequence.
pub open spec fn magic() -> Seq<u8> {
    seq![0x45u8, 0x43u8, 0x54u8, 0x46u8]
}

/// A container's bytes: magic tag, version, metadata length in four
/// little-endian bytes, the metadata block, then the ciphertext.
pub open spec fn container_bytes(meta: Seq<u8>, ct: Seq<u8>) -> Seq<u8> {
    magic() + seq![VERSION] + spec_u32_to_le_bytes(meta.len() as u32) + meta + ct
}

/// The metadata length that a header holds.
pub open spec fn header_meta_len(b: Seq<u8>) -> int {
    spec_u32_from_le_bytes(b.subrange(5, 9)) as int
}

/// What reading a container gives: its metadata record and its ciphertext,
/// or the first structural fault found. The metadata block is corrupted
/// only where it does not start with a record; bytes after the record,
/// within the block, are ignored.
pub open spec fn parsed_container(b: Seq<u8>) -> Result<(MetadataView, Seq<u8>), EctError> {
    if b.len() < 9 || b.subrange(0, 4) != magic() {
        Err(EctError::CorruptedFormat)
    } else if b[4] != VERSION {
        Err(EctError::UnsupportedVersion(b[4]))
    } else if b.len() < 9 + header_meta_len(b) {
        Err(EctError::CorruptedFormat)
    } else {
        let n = header_meta_len(b);
        match decoded_metadata(b.subrange(9, 9 + n)) {
            Some(v) => Ok((v, b.subrange(9 + n, b.len() as int))),
            None => Err(EctError::CorruptedMetadata),
        }
    }
}

/// A parsed container seen through the views of its parts.
pub open spec fn container_view(r: Result<(Metadata, Vec<u8>), EctError>) -> Result<(MetadataView, Seq<u8>), EctError> {
    match r {
        Ok((m, ct)) => Ok((m@, ct@)),
        Err(e) => Err(e),
    }
}

/// Appends the bytes `s[start..end]` to `v`.
fn push_range(v: &mut Vec<u8>, s: &[u8], start: usize, end: usize)
    requires
        start <= end <= s@.len(),
    ensures
        final(v)@ == old(v)@ + s@.subrange(start as int, end as int),
{
    let mut i: usize = start;
    while i < end
        invariant
            start <= i <= end <= s@.len(),
            v@ == old(v)@ + s@.subrange(start as int, i as int),
        decreases end - i,
    {
        v.push(s[i]);
        assert(s@.subrange(start as int, i + 1) =~= s@.subrange(start as int, i as int).push(s@[i as int]));
        i = i + 1;
    }
}

/// Frames a metadata record and a ciphertext into container bytes. A record
/// too long for the four-byte length field is refused as `InvalidInput`.
pub fn write_container(metadata: &Metadata, ciphertext: &[u8]) -> (r: Result<Vec<u8>, EctError>)
    ensures
        r is Ok <==> metadata_bytes(metadata@).len() <= u32::MAX,
        r is Ok ==> r->Ok_0@ == container_bytes(metadata_bytes(metadata@), ciphertext@),
        r is Err ==> r->Err_0 == EctError::InvalidInput,
{
    let meta = match metadata.serialize() {
        Ok(m) => m,
        Err(e) => return Err(e),
    };
    let meta_len = meta.len();
    if meta_len > 0xffff_ffff {
        return Err(EctError::InvalidInput);
    }
    let mut out: Vec<u8> = Vec::new();
    out.push(MAGIC_BYTES[0]);
    out.push(MAGIC_BYTES[1]);
    out.push(MAGIC_BYTES[2]);
    out.push(MAGIC_BYTES[3]);
    out.push(VERSION);
    let len_bytes = u32_to_le_bytes(meta_len as u32);
    push_range(&mut out, len_bytes.as_slice(), 0, 4);
    push_range(&mut out, meta.as_slice(), 0, meta_len);
    push_range(&mut out, ciphertext, 0, ciphertext.len());
    assert(len_bytes@.subrange(0, 4) =~= len_bytes@);
    assert(meta@.subrange(0, meta_len as int) =~= meta@);
    assert(ciphertext@.subrange(0, ciphertext@.len() as int) =~= ciphertext@);
    assert(out@ =~= container_bytes(meta@, ciphertext@));
    Ok(out)
}

/// Reads container bytes into the metadata record and the ciphertext.
pub fn read_container(data: &[u8]) -> (r: Result<(Metadata, Vec<u8>), EctError>)
    ensures
        container_view(r) == parsed_container(data@),
{
    let len = data.len();
    if len < HEADER_LEN {
        return Err(EctError::CorruptedFormat);
    }
    if data[0] != MAGIC_BYTES[0] || data[1] != MAGIC_BYTES[1] || data[2] != MAGIC_BYTES[2]
        || data[3] != MAGIC_BYTES[3] {
        proof {
            if data@.subrange(0, 4) == magic() {
                assert(data@[0] == data@.subrange(0, 4)[0]);
                assert(data@[1] == data@.subrange(0, 4)[1]);
                assert(data@[2] == data@.subrange(0, 4)[2]);
                assert(data@[3] == data@.subrange(0, 4)[3]);
            }
        }
        return Err(EctError::CorruptedFormat);
    }
    assert(data@.subrange(0, 4) =~= magic());
    let version = data[4];
    if version != VERSION {
        return Err(EctError::UnsupportedVersion(version));
    }
    let mut len_bytes: Vec<u8> = Vec::new();
    push_range(&mut len_bytes, data, 5, 9);
    let meta_len = u32_from_le_bytes(len_bytes.as_slice()) as usize;
    if len - HEADER_LEN < meta_len {
        return Err(EctError::CorruptedFormat);
    }
    let meta_end = HEADER_LEN + meta_len;
    let mut meta: Vec<u8> = Vec::new();
    push_range(&mut meta, data, HEADER_LEN, meta_end);
    let metadata = match Metadata::deserialize(meta.as_slice()) {
        Ok(m) => m,
        Err(e) => return Err(e),
    };
    let mut ciphertext: Vec<u8> = Vec::new();
    push_range(&mut ciphertext, data, meta_end, len);
    assert(meta@ =~= data@.subrange(9, 9 + header_meta_len(data@)));
    assert(ciphertext@ =~= data@.subrange(meta_end as int, len as int));
    Ok((metadata, ciphertext))
}

} // verus!
