//! Content fingerprints of imported notes.

use vstd::prelude::*;
use sha2::Digest;

verus! {

/// The lowercase hexadecimal SHA-256 digest of the UTF-8 encoding of a text.
pub uninterp spec fn sha256_hex_of(s: Seq<char>) -> Seq<char>;

/// Relies on `sha2::Sha256::digest` and the `LowerHex` rendering of its
/// output: the result depends on the text alone, and is two lowercase
/// hexadecimal digits for each of the 32 bytes of the digest.
#[verifier::external_body]
fn sha256_hex(s: &str) -> (r: String)
    ensures
        r@ == sha256_hex_of(s@),
        r@.len() == 64,
        forall|i: int| 0 <= i < r@.len() ==> is_lower_hex(#[trigger] r@[i]),
{
    format!("{:x}", sha2::Sha256::digest(s.as_bytes()))
}

/// A lowercase hexadecimal digit.
pub open spec fn is_lower_hex(c: char) -> bool {
    ('0' <= c && c <= '9') || ('a' <= c && c <= 'f')
}

/// The text a note's fingerprint is taken over: title, `||`, body.
pub open spec fn fingerprint_text(title: Seq<char>, body: Seq<char>) -> Seq<char> {
    title + "||"@ + body
}

/// The fingerprint of an imported note.
pub open spec fn fingerprint(title: Seq<char>, body: Seq<char>) -> Seq<char> {
    sha256_hex_of(fingerprint_text(title, body))
}

/// Computes the fingerprint of a title and a body.
pub fn compute_hash(title: &str, body: &str) -> (r: String)
    ensures
        r@ == fingerprint(title@, body@),
        r@.len() == 64,
        forall|i: int| 0 <= i < r@.len() ==> is_lower_hex(#[trigger] r@[i]),
{
    let mut content = String::from_str(title);
    content.append("||");
    content.append(body);
    sha256_hex(content.as_str())
}

} // verus!
