//! What the service reads of the local server's replies.

use vstd::prelude::*;

verus! {

/// The body of a reply of the local server, as far as the service reads it.
#[derive(Debug, Clone, PartialEq, Eq)]
pub struct ApiResponse<T> {
    pub data: Option<T>,
}

/// Whether an HTTP status code reports success, that is, lies in 200 to 299.
pub open spec fn success_code(code: u16) -> bool {
    200 <= code < 300
}

/// Tests whether an HTTP status code reports success.
pub fn is_success(code: u16) -> (success: bool)
    ensures
        success == success_code(code),
        success <==> 200 <= code <= 299,
{
    200 <= code && code < 300
}

/// The codes that report success are those from 200 to 299, and no others.
pub proof fn success_is_in_the_two_hundreds(code: u16, success: bool)
    requires
        call_ensures(is_success, (code,), success),
    ensures
        success <==> 200 <= code <= 299,
        success_code(code) <==> 200 <= code <= 299,
{
}

} // verus!
