//! The about page: its version line and which of its links may be opened.
use vstd::prelude::*;
use crate::text::{is_prefix, starts_with};

verus! {

/// Only web addresses are opened from the about page.
pub open spec fn is_web_uri(uri: Seq<char>) -> bool {
    is_prefix("http://"@, uri) || is_prefix("https://"@, uri)
}

/// Whether the link `uri` of an about page row may be opened: it starts
/// with `http://` or `https://`.
pub fn should_open_uri(uri: &str) -> (open: bool)
    ensures
        open == is_web_uri(uri@),
{
    starts_with(uri, "http://") || starts_with(uri, "https://")
}

/// The version line of the about page: `Version ` followed by the version.
pub fn version_text(version: &str) -> (line: String)
    ensures
        line@ == "Version "@ + version@,
{
    let mut line = String::from_str("Version ");
    line.append(version);
    line
}

} // verus!
