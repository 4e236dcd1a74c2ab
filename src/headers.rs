//! What makes a valid HTTP header name and value, as the `http` crate (through
//! hyper) decides it.
use vstd::prelude::*;
use crate::bytes::lower_ascii;

verus! {

/// A byte that may stand in a header name (upper-case letters included).
pub open spec fn is_header_name_byte(b: u8) -> bool {
    ||| 48 <= b <= 57
    ||| 65 <= b <= 90
    ||| 97 <= b <= 122
    ||| b == 33 || b == 34 || b == 35 || b == 36 || b == 37 || b == 38 || b == 39
    ||| b == 42 || b == 43 || b == 45 || b == 46
    ||| b == 94 || b == 95 || b == 96 || b == 124 || b == 126
}

/// The longest header name accepted.
pub const MAX_HEADER_NAME_LEN: usize = 65535;

pub open spec fn valid_header_name(n: Seq<u8>) -> bool {
    &&& 1 <= n.len() <= MAX_HEADER_NAME_LEN
    &&& forall|i: int| 0 <= i < n.len() ==> is_header_name_byte(#[trigger] n[i])
}

/// A header name is kept in lower case.
pub open spec fn normalized_header_name(n: Seq<u8>) -> Seq<u8> {
    n.map_values(|b: u8| lower_ascii(b))
}

/// A byte that may stand in a header value: tab, or anything from space up
/// but DEL.
pub open spec fn is_header_value_byte(b: u8) -> bool {
    (b >= 32 && b != 127) || b == 9
}

pub open spec fn valid_header_value(v: Seq<u8>) -> bool {
    forall|i: int| 0 <= i < v.len() ==> is_header_value_byte(#[trigger] v[i])
}

/// Relies on `http::HeaderName::from_bytes`: it accepts a name of 1 to 65535
/// token bytes and keeps it in lower case.
#[verifier::external_body]
pub(crate) fn header_name(b: &[u8]) -> (r: Option<Vec<u8>>)
    ensures
        r is Some <==> valid_header_name(b@),
        r matches Some(n) ==> n@ == normalized_header_name(b@),
{
    match hyper::header::HeaderName::from_bytes(b) {
        Ok(name) => Some(name.as_str().as_bytes().to_vec()),
        Err(_) => None,
    }
}

/// Relies on `http::HeaderValue::from_bytes`: it accepts tab and every byte
/// from space up but DEL.
#[verifier::external_body]
pub(crate) fn is_header_value(b: &[u8]) -> (r: bool)
    ensures
        r == valid_header_value(b@),
{
    hyper::header::HeaderValue::from_bytes(b).is_ok()
}

} // verus!
