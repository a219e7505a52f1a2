//! Telling whether an HTTP request succeeded from its status code.

use vstd::prelude::*;

verus! {

/// Is the status code a success, `200` to `299` (what `StatusCode::is_success`
/// tells)?
pub open spec fn success_status(status: u16) -> bool {
    200 <= status && status <= 299
}

/// Did the request with this status code succeed? A media download, and a
/// Mastodon API request, go on only then.
pub fn is_success_status(status: u16) -> (r: bool)
    ensures
        r == success_status(status),
{
    200 <= status && status <= 299
}

} // verus!
