//! Content fingerprints used to tell whether a note changed since its
//! embedding was stored.

use vstd::prelude::*;
use vstd::string::StringSliceAdditionalSpecFns;
use crate::note::Note;

verus! {

/// The CRC-32 (IEEE) checksum of a byte sequence.
pub uninterp spec fn crc32_of(bytes: Seq<u8>) -> u32;

/// Relies on `crc32fast::hash`: the CRC-32 of the given bytes, a value that
/// depends on the bytes alone.
#[verifier::external_body]
fn crc32(bytes: &[u8]) -> (r: u32)
    ensures
        r == crc32_of(bytes@),
{
    crc32fast::hash(bytes)
}

/// The fingerprint of a note's text: the CRC-32 of its UTF-8 encoding.
pub open spec fn text_checksum(text: Seq<char>) -> u32 {
    crc32_of(vstd::utf8::encode_utf8(text))
}

/// Fingerprint of a note's raw text content.
pub fn note_to_checksum(note: &Note) -> (r: u32)
    ensures
        r == text_checksum(note.text_content@),
{
    crc32(note.text_content.as_str().as_bytes())
}

/// The fingerprint depends on the text alone: two notes with the same text
/// always get the same checksum, whatever their titles and paths.
pub proof fn checksum_is_deterministic(a: Note, b: Note)
    requires
        a.text_content@ == b.text_content@,
    ensures
        text_checksum(a.text_content@) == text_checksum(b.text_content@),
{
}

} // verus!
