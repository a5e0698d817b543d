//! HTTP status codes.

use vstd::prelude::*;

verus! {

/// Whether `code` can be the status of an HTTP response.
pub open spec fn is_status(code: u16) -> bool {
    100 <= code <= 999
}

/// Whether `code` says that a request succeeded.
pub open spec fn is_success(code: u16) -> bool {
    200 <= code <= 299
}

/// A status as it is shown: the code and the standard phrase for it.
pub uninterp spec fn status_text(code: u16) -> Seq<char>;

/// `reqwest::StatusCode::is_success`, on the status that `StatusCode::from_u16` makes of
/// `code`: true for the codes from 200 to 299. `from_u16` takes the codes from 100 to
/// 999.
#[verifier::external_body]
pub(crate) fn succeeded(code: u16) -> (r: bool)
    requires
        is_status(code),
    ensures
        r == is_success(code),
{
    reqwest::StatusCode::from_u16(code).unwrap().is_success()
}

/// The `Display` of `reqwest::StatusCode`, on the status that `StatusCode::from_u16` makes
/// of `code`: what it shows depends on the code alone and is named `status_text`.
/// `from_u16` takes the codes from 100 to 999.
#[verifier::external_body]
pub(crate) fn shown(code: u16) -> (r: String)
    requires
        is_status(code),
    ensures
        r@ == status_text(code),
{
    reqwest::StatusCode::from_u16(code).unwrap().to_string()
}

} // verus!
