//! One decoded line of the access log, the endpoints that count, and the
//! hour that a request falls in.

use crate::text::str_eq;
use vstd::prelude::*;
use vstd::string::{StrSliceExecFns, StringExecFns};

verus! {

/// One request of the access log, as decoded from its line.
#[derive(Clone, Debug, PartialEq, Eq)]
pub struct DecodedRequest {
    /// When the request arrived: `YYYY-MM-DDTHH:` and whatever follows.
    pub timestamp: String,
    /// What the client called itself.
    pub user_agent: String,
    /// The path that was asked for.
    pub request_path: String,
}

/// A request as three sequences of characters.
pub struct RequestView {
    pub timestamp: Seq<char>,
    pub user_agent: Seq<char>,
    pub request_path: Seq<char>,
}

impl View for DecodedRequest {
    type V = RequestView;

    open spec fn view(&self) -> RequestView {
        RequestView {
            timestamp: self.timestamp@,
            user_agent: self.user_agent@,
            request_path: self.request_path@,
        }
    }
}

/// The number of leading characters of a timestamp that name its hour.
pub const HOUR_PREFIX: usize = 14;

/// Whether `path` is one of the endpoints through which packages are
/// installed or resolved.
pub open spec fn is_install_path(path: Seq<char>) -> bool {
    ||| path == "/api/v1/dependencies"@
    ||| path == "/latest_specs.4.8.gz"@
    ||| path == "/prerelease_specs.4.8.gz"@
    ||| path == "/specs.4.8.gz"@
    ||| path == "/versions"@
}

/// Whether a request for `path` counts towards the statistics.
pub fn targets_install_endpoint(path: &str) -> (counted: bool)
    ensures
        counted == is_install_path(path@),
{
    str_eq(path, "/api/v1/dependencies") || str_eq(path, "/latest_specs.4.8.gz") || str_eq(
        path,
        "/prerelease_specs.4.8.gz",
    ) || str_eq(path, "/specs.4.8.gz") || str_eq(path, "/versions")
}

/// Whether a timestamp is long enough to name its hour.
pub open spec fn names_hour(timestamp: Seq<char>) -> bool {
    timestamp.len() >= HOUR_PREFIX
}

/// The hour bucket of a timestamp: its first 14 characters, with minutes and
/// seconds set to zero.
pub open spec fn hour_of(timestamp: Seq<char>) -> Seq<char> {
    timestamp.subrange(0, HOUR_PREFIX as int) + "00:00"@
}

/// The hour bucket of a timestamp, or nothing where the timestamp has fewer
/// than 14 characters.
pub fn hour_bucket(timestamp: &str) -> (bucket: Option<String>)
    ensures
        match bucket {
            Some(hour) => names_hour(timestamp@) && hour@ == hour_of(timestamp@),
            None => !names_hour(timestamp@),
        },
{
    if timestamp.unicode_len() < HOUR_PREFIX {
        return None;
    }
    let mut hour = String::from_str(timestamp.substring_char(0, HOUR_PREFIX));
    hour.append("00:00");
    Some(hour)
}

} // verus!
