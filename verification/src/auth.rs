use vstd::prelude::*;

use subtle::ConstantTimeEq;

use crate::types::ErrorResponse;

verus! {

/// Whether two byte strings are equal, compared with `subtle`'s
/// `<[u8] as ConstantTimeEq>::ct_eq` (time independent of the contents when the lengths
/// agree). Claimed: the result is true exactly when the two strings are equal, which
/// is what that function computes (it returns 0 on different lengths and otherwise the
/// conjunction of the byte equalities).
#[verifier::external_body]
fn BytesEqualInConstantTime(A: &[u8], B: &[u8]) -> (r: bool)
    ensures r == (A@ == B@),
{
    A.ct_eq(B).into()
}

/// Whether two strings are equal, compared without revealing through timing where
/// they differ (only their lengths).
pub fn ConstantTimeCompare(A: &str, B: &str) -> (r: bool)
    ensures r == (A@ == B@),
{
    proof {
        vstd::utf8::encode_utf8_decode_utf8(A@);
        vstd::utf8::encode_utf8_decode_utf8(B@);
    }
    let ABytes: &[u8] = A.as_bytes();
    let BBytes: &[u8] = B.as_bytes();
    if ABytes.len() != BBytes.len() {
        return false;
    }
    BytesEqualInConstantTime(ABytes, BBytes)
}

/// The API key header of a request, as the HTTP layer hands it over.
#[derive(Debug)]
pub enum ApiKeyHeader {
    /// The request has no `X-Api-Key` header.
    Missing,
    /// The header's value is not visible text.
    Unreadable,
    /// The header's value.
    Present(String),
}

/// The message with which a request is refused for its API key, if it is: a missing
/// header, an unreadable one, and a key other than the secret are each refused.
pub open spec fn authorization_error(header: ApiKeyHeader, secret: &str) -> Option<Seq<char>> {
    match header {
        ApiKeyHeader::Missing => Some("Missing X-Api-Key header"@),
        ApiKeyHeader::Unreadable => Some("Invalid X-Api-Key header encoding"@),
        ApiKeyHeader::Present(key) =>
            if key@ == secret@ { None } else { Some("Invalid API key"@) },
    }
}

/// Decides whether a request may reach the protected routes: its API key must be
/// present, readable, and equal to the server's secret. A refusal carries the body
/// of the 401 answer.
pub fn AuthorizeRequest(Header: &ApiKeyHeader, Secret: &str) -> (r: Result<(), ErrorResponse>)
    ensures
        match r {
            Ok(()) => authorization_error(*Header, Secret) is None,
            Err(e) => authorization_error(*Header, Secret) == Some(e.Error@),
        },
{
    match Header {
        ApiKeyHeader::Missing => Err(ErrorResponse { Error: "Missing X-Api-Key header".to_string() }),
        ApiKeyHeader::Unreadable => Err(ErrorResponse { Error: "Invalid X-Api-Key header encoding".to_string() }),
        ApiKeyHeader::Present(Key) => {
            if !ConstantTimeCompare(Key.as_str(), Secret) {
                Err(ErrorResponse { Error: "Invalid API key".to_string() })
            } else {
                Ok(())
            }
        }
    }
}

} // verus!
