//! Identifiers of new documents, made from version-4 UUIDs.

use vstd::prelude::*;
use vstd::string::*;
use crate::digest::{hex_encode, hex_lower, lemma_hex_lower_len};

verus! {

/// The identifier made from the sixteen bytes of a UUID: `doc_` followed by
/// the first sixteen hexadecimal digits of the UUID's text form, that is the
/// lower-case hexadecimal text of its first eight bytes.
pub open spec fn document_id_text(uuid: Seq<u8>) -> Seq<char> {
    "doc_"@ + hex_lower(uuid.take(8))
}

/// An identifier made from a UUID is `doc_` and sixteen hexadecimal digits.
pub proof fn lemma_document_id_len(uuid: Seq<u8>)
    requires
        uuid.len() == 16,
    ensures
        document_id_text(uuid).len() == 20,
{
    reveal_strlit("doc_");
    lemma_hex_lower_len(uuid.take(8));
}

/// The bytes of the version-4 UUID built from sixteen random bytes: the
/// version nibble (high half of byte 6) set to 4 and the variant bits (top two
/// bits of byte 8) set to `10`, every other bit kept.
pub open spec fn v4_bytes(random: Seq<u8>) -> Seq<u8> {
    random.update(6, (random[6] & 0x0fu8) | 0x40u8).update(8, (random[8] & 0x3fu8) | 0x80u8)
}

/// The version-4 UUID that `uuid::Builder::from_random_bytes` builds from
/// sixteen random bytes, as its sixteen bytes.
///
/// Trusted: the builder keeps the bytes and only sets the version to 4 and
/// the variant to RFC 4122, as `v4_bytes` states.
#[verifier::external_body]
fn uuid_from_random_bytes(random: [u8; 16]) -> (b: [u8; 16])
    ensures
        b@ == v4_bytes(random@),
{
    uuid::Builder::from_random_bytes(random).into_uuid().into_bytes()
}

/// The document identifier for the given UUID bytes.
pub fn document_id(uuid: &[u8; 16]) -> (id: String)
    ensures
        id@ == document_id_text(uuid@),
        id@.len() == 20,
{
    proof {
        lemma_document_id_len(uuid@);
    }
    let mut head: Vec<u8> = Vec::new();
    let mut i: usize = 0;
    while i < 8
        invariant
            i <= 8,
            uuid@.len() == 16,
            head@ == uuid@.take(i as int),
        decreases 8 - i,
    {
        head.push(uuid[i]);
        i = i + 1;
        assert(head@ =~= uuid@.take(i as int));
    }
    let hex = hex_encode(head.as_slice());
    String::from_str("doc_").concat(hex.as_str())
}

/// The identifier of a new document: that of the version-4 UUID built from
/// sixteen random bytes.
pub fn new_document_id(random: [u8; 16]) -> (id: String)
    ensures
        id@ == document_id_text(v4_bytes(random@)),
        id@.len() == 20,
{
    let u = uuid_from_random_bytes(random);
    document_id(&u)
}

} // verus!
