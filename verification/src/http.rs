//! HTTP status codes.
use vstd::prelude::*;

use crate::text::decimal;

verus! {

/// A number that can stand as a status code.
pub open spec fn valid_status(code: u16) -> bool {
    100 <= code < 1000
}

/// The phrase that goes with a status code.
pub uninterp spec fn status_reason(code: u16) -> Seq<char>;

/// A status code as text: its number, a space and its phrase.
pub open spec fn status_line(code: u16) -> Seq<char> {
    decimal(code as nat) + " "@ + status_reason(code)
}

/// The `Display` form of `reqwest::StatusCode`: the number, a space, and a
/// phrase that depends on the number alone. Numbers from 100 to 999 can stand
/// as a code.
#[verifier::external_body]
pub(crate) fn status_text(code: u16) -> (text: String)
    requires
        valid_status(code),
    ensures
        text@ == decimal(code as nat) + " "@ + status_reason(code),
{
    reqwest::StatusCode::from_u16(code).unwrap().to_string()
}

/// Whether a status code stands for success.
pub fn is_success(code: u16) -> (success: bool)
    ensures
        success == (200 <= code < 300),
{
    200 <= code && code < 300
}

/// A status code stands for success exactly if its first digit is a two.
pub proof fn law_success(code: u16, success: bool)
    requires
        call_ensures(is_success, (code,), success),
    ensures
        success <==> code / 100 == 2,
{
}

} // verus!
