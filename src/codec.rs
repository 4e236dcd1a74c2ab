//! Text codecs the Lambda protocol relies on: UTF-8 checks, base64 and URL
//! query strings.
use vstd::prelude::*;
use vstd::string::StringSliceAdditionalSpecFns;
use vstd::utf8::valid_utf8;

verus! {

/// The base64 text (standard alphabet, padded) of `b`.
pub uninterp spec fn base64_of(b: Seq<u8>) -> Seq<char>;

/// The bytes that the base64 text `s` stands for, or `None` when it is not
/// valid base64.
pub uninterp spec fn base64_decoded(s: Seq<char>) -> Option<Seq<u8>>;

/// The `(key, value)` pairs, percent-decoded and in order, of a URL query
/// string, or `None` when it cannot be decoded.
pub uninterp spec fn query_pairs(q: Seq<char>) -> Option<Seq<(Seq<char>, Seq<char>)>>;

/// Relies on `std::str::from_utf8`: it succeeds exactly on valid UTF-8, and
/// the text it returns has the same bytes.
#[verifier::external_body]
pub(crate) fn utf8_text(b: &[u8]) -> (r: Option<&str>)
    ensures
        r is Some <==> valid_utf8(b@),
        r matches Some(s) ==> s.spec_bytes() == b@,
{
    std::str::from_utf8(b).ok()
}

/// Relies on `base64::encode` (standard alphabet, padded).
#[verifier::external_body]
pub(crate) fn base64_encode(b: &[u8]) -> (r: String)
    ensures
        r@ == base64_of(b@),
{
    base64::encode(b)
}

/// Relies on `base64::decode` (standard alphabet, padded).
#[verifier::external_body]
pub(crate) fn base64_decode(s: &str) -> (r: Option<Vec<u8>>)
    ensures
        r is Some <==> base64_decoded(s@) is Some,
        r matches Some(v) ==> base64_decoded(s@) == Some(v@),
{
    base64::decode(s).ok()
}

/// Relies on `serde_urlencoded::from_str` into a list of string pairs.
#[verifier::external_body]
pub(crate) fn decode_query(q: &str) -> (r: Option<Vec<(String, String)>>)
    ensures
        r is Some <==> query_pairs(q@) is Some,
        r matches Some(v) ==> query_pairs(q@) == Some(
            v@.map_values(|p: (String, String)| (p.0@, p.1@)),
        ),
{
    serde_urlencoded::from_str::<Vec<(String, String)>>(q).ok()
}

} // verus!
