//! Content digests: SHA-256 through `sha2`, hexadecimal text through `hex`.

use vstd::prelude::*;
use vstd::string::*;

verus! {

/// The SHA-256 digest of a byte sequence, as `sha2::Sha256` computes it.
pub uninterp spec fn sha256(data: Seq<u8>) -> Seq<u8>;

/// One lower-case hexadecimal digit for a value below 16.
pub open spec fn hex_digit(n: int) -> char {
    if n < 10 {
        (48 + n) as char
    } else {
        (87 + n) as char
    }
}

/// Lower-case hexadecimal text of a byte sequence, two digits per byte, high
/// nibble first.
pub open spec fn hex_lower(b: Seq<u8>) -> Seq<char>
    decreases b.len(),
{
    if b.len() == 0 {
        Seq::empty()
    } else {
        seq![hex_digit((b[0] / 16) as int), hex_digit((b[0] % 16) as int)] + hex_lower(b.drop_first())
    }
}

/// Hexadecimal digest of a text: the SHA-256 of its UTF-8 bytes, in
/// lower-case hexadecimal.
pub open spec fn content_digest(text: Seq<char>) -> Seq<char> {
    hex_lower(sha256(vstd::utf8::encode_utf8(text)))
}

/// Short digest of a text: the first eight bytes of its SHA-256, in
/// lower-case hexadecimal.
pub open spec fn short_digest(text: Seq<char>) -> Seq<char> {
    hex_lower(sha256(vstd::utf8::encode_utf8(text)).take(8))
}

/// Computes SHA-256 with `sha2::Sha256::digest`.
///
/// Trusted: the result is named `sha256` of the input bytes and is 32 bytes
/// long, which is the output size of SHA-256 in `sha2`.
#[verifier::external_body]
fn sha256_digest(data: &[u8]) -> (d: Vec<u8>)
    ensures
        d@ == sha256(data@),
        d@.len() == 32,
{
    <sha2::Sha256 as sha2::Digest>::digest(data).to_vec()
}

/// Encodes bytes with `hex::encode`.
///
/// Trusted: `hex::encode` writes each byte as two lower-case hexadecimal
/// digits, high nibble first, which is what `hex_lower` states.
#[verifier::external_body]
pub(crate) fn hex_encode(data: &[u8]) -> (s: String)
    ensures
        s@ == hex_lower(data@),
{
    hex::encode(data)
}

/// Length of the hexadecimal text: two digits per byte.
pub proof fn lemma_hex_lower_len(b: Seq<u8>)
    ensures
        hex_lower(b).len() == 2 * b.len(),
    decreases b.len(),
{
    if b.len() > 0 {
        lemma_hex_lower_len(b.drop_first());
    }
}

/// The hexadecimal SHA-256 of the UTF-8 bytes of `content`.
pub fn content_hash(content: &str) -> (h: String)
    ensures
        h@ == content_digest(content@),
        h@.len() == 64,
{
    let d = sha256_digest(content.as_bytes());
    let h = hex_encode(d.as_slice());
    proof {
        lemma_hex_lower_len(d@);
    }
    h
}

/// The hexadecimal text of the first eight bytes of the SHA-256 of `data`.
pub fn short_hash(data: &str) -> (h: String)
    ensures
        h@ == short_digest(data@),
        h@.len() == 16,
{
    let mut d = sha256_digest(data.as_bytes());
    d.truncate(8);
    let h = hex_encode(d.as_slice());
    proof {
        assert(d@ =~= sha256(data.spec_bytes()).take(8));
        lemma_hex_lower_len(d@);
    }
    h
}

} // verus!
