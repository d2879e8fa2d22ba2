//! Decisions of the listen and restart requests: which requests are
//! served, with which status, and whether the stream carries inline titles.
use vstd::prelude::*;
use crate::resolver::ResolveError;

verus! {

pub const STATUS_OK: u16 = 200;
pub const STATUS_UNAUTHORIZED: u16 = 401;
pub const STATUS_NOT_FOUND: u16 = 404;
pub const STATUS_RANGE_NOT_SATISFIABLE: u16 = 416;
pub const STATUS_SERVICE_UNAVAILABLE: u16 = 503;

fn same_text(a: &str, b: &str) -> (r: bool)
    ensures
        r == (a@ == b@),
{
    String::from_str(a) == String::from_str(b)
}

/// A live stream cannot be entered at an offset: a range header other than
/// `bytes=0-` is refused.
pub fn range_acceptable(range: Option<&str>) -> (r: bool)
    ensures
        r == match range {
            Some(h) => h@ == "bytes=0-"@,
            None => true,
        },
{
    match range {
        Some(h) => same_text(h, "bytes=0-"),
        None => true,
    }
}

/// Whether the listener asked for inline titles (`icy-metadata: 1`).
pub fn icy_requested(header: Option<&str>) -> (r: bool)
    ensures
        r == match header {
            Some(h) => h@ == "1"@,
            None => false,
        },
{
    match header {
        Some(h) => same_text(h, "1"),
        None => false,
    }
}

/// Status of a listen request whose stream could not be had.
pub fn stream_error_status(error: ResolveError) -> (r: u16)
    ensures
        error == ResolveError::ChannelNotFound ==> r == STATUS_NOT_FOUND,
        error != ResolveError::ChannelNotFound ==> r == STATUS_SERVICE_UNAVAILABLE,
{
    match error {
        ResolveError::ChannelNotFound => STATUS_NOT_FOUND,
        _ => STATUS_SERVICE_UNAVAILABLE,
    }
}

/// Status of a restart request that carries `token`, against the expected one.
pub fn restart_status(token: Option<&str>, expected: &str) -> (r: u16)
    ensures
        r == match token {
            Some(t) => if t@ == expected@ { STATUS_OK } else { STATUS_UNAUTHORIZED },
            None => STATUS_UNAUTHORIZED,
        },
{
    match token {
        Some(t) => if same_text(t, expected) {
            STATUS_OK
        } else {
            STATUS_UNAUTHORIZED
        },
        None => STATUS_UNAUTHORIZED,
    }
}

} // verus!
