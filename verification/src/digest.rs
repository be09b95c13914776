//! The fingerprint computer: a SHA-256 digest over the UTF-8 bytes of a
//! row's canonical comma-joined text, rendered as 64 lowercase hex digits.
use vstd::prelude::*;
use sha2::Digest;
use crate::text::{comma_join, hex_of, join_commas, lemma_hex_of_len, string_from_chars, to_hex,
    vals_view};

verus! {

/// The SHA-256 digest of the UTF-8 encoding of a character sequence. Its
/// value is a function of the characters alone; nothing further is assumed
/// of it.
pub uninterp spec fn sha256_of(s: Seq<char>) -> Seq<u8>;

/// Relies on `sha2::Sha256::digest`: the 32-byte SHA-256 digest of the
/// string's UTF-8 bytes, a function of the characters alone.
#[verifier::external_body]
fn sha256_digest(s: &str) -> (r: Vec<u8>)
    ensures
        r@ == sha256_of(s@),
        r@.len() == 32,
{
    sha2::Sha256::digest(s.as_bytes()).to_vec()
}

/// A row's fingerprint: the lowercase hexadecimal rendering of the SHA-256
/// digest of its canonical text.
pub open spec fn fingerprint_of(joined: Seq<char>) -> Seq<char> {
    hex_of(sha256_of(joined))
}

/// The fingerprint over a row's already-joined canonical text.
pub fn fingerprint_joined(joined: &Vec<char>) -> (h: Vec<char>)
    ensures
        h@ == fingerprint_of(joined@),
        h@.len() == 64,
{
    let s = string_from_chars(joined);
    let digest = sha256_digest(s.as_str());
    proof {
        lemma_hex_of_len(digest@);
    }
    to_hex(&digest)
}

/// The fingerprint of a row's raw field values: joined with single commas in
/// field order with no trailing separator, digested with SHA-256, rendered
/// as 64 lowercase hexadecimal digits. Identical value sequences always
/// yield identical fingerprints.
pub fn fingerprint(raw_values: &Vec<Vec<char>>) -> (h: Vec<char>)
    ensures
        h@ == fingerprint_of(comma_join(vals_view(raw_values@))),
        h@.len() == 64,
{
    let joined = join_commas(raw_values);
    fingerprint_joined(&joined)
}

} // verus!
