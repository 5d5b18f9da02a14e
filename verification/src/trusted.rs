//! The crate's trusted boundary: the few outside computations the library
//! relies on without proof.  Each wrapper's contract states no more than
//! the called crate's source and documentation show.

use vstd::prelude::*;

verus! {

/// What chrono computes for an RFC 3339 date-time string: the instant as
/// non-leap seconds since the Unix epoch, or nothing when the text is not
/// a valid RFC 3339 date-time.  A function of the text alone.
pub uninterp spec fn rfc3339_seconds_of(s: Seq<char>) -> Option<i64>;

/// Relies on chrono's `DateTime::parse_from_rfc3339` and
/// `DateTime::timestamp`: both are pure functions of the text, so the
/// result deserves a name, and nothing more is assumed of it.
#[verifier::external_body]
pub(crate) fn parse_rfc3339_seconds(s: &str) -> (r: Option<i64>)
    ensures
        r == rfc3339_seconds_of(s@),
{
    chrono::DateTime::parse_from_rfc3339(s).ok().map(|dt| dt.timestamp())
}

/// The SHA-1 digest of a byte string, as 40 lowercase hex characters.
/// A function of the bytes alone.
pub uninterp spec fn sha1_hex_of(b: Seq<u8>) -> Seq<char>;

/// Relies on the sha1 crate's `Sha1` (the digest is a pure function of
/// the input bytes) and on generic-array's `LowerHex` formatting of the
/// 20-byte digest.
#[verifier::external_body]
pub(crate) fn sha1_hex(b: &[u8]) -> (r: String)
    ensures
        r@ == sha1_hex_of(b@),
{
    let mut h = <sha1::Sha1 as sha1::Digest>::new();
    sha1::Digest::update(&mut h, b);
    format!("{:x}", sha1::Digest::finalize(h))
}

/// Relies on std's `String::from_utf8`: it returns a string of exactly
/// the given bytes when they are valid UTF-8, and an error otherwise.
#[verifier::external_body]
pub(crate) fn bytes_to_string(v: &[u8]) -> (r: Option<String>)
    ensures
        r is Some <==> vstd::utf8::valid_utf8(v@),
        r matches Some(s) ==> vstd::utf8::encode_utf8(s@) == v@,
{
    String::from_utf8(v.to_vec()).ok()
}

} // verus!
