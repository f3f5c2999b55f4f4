//! Decision logic of the add-feed dialog: URL validation and the
//! action the dialog hands back to its caller.

use vstd::prelude::*;
use vstd::string::StringExecFns;

use crate::format::{chars_to_string, str_chars_vec, trim_spec};
use crate::urlcheck::{parse_url_check, url_parse_ok};

verus! {

/// Action returned by the add-feed dialog.
pub enum AddFeedAction {
    /// A valid URL was submitted: start the fetch.
    Submit(String),
    /// The dialog was dismissed.
    Cancel,
}

/// What validation answers: `None` for a usable URL, otherwise the
/// message to show.
pub open spec fn validate_url_spec(s: Seq<char>) -> Option<Seq<char>> {
    let t = trim_spec(s);
    if t.len() == 0 {
        Option::Some("URL cannot be empty."@)
    } else if !url_parse_ok(t) {
        Option::Some("Invalid URL."@)
    } else {
        Option::None
    }
}

/// Trim surrounding whitespace from a string.
pub fn trim_str(s: &str) -> (r: String)
    ensures
        r@ == trim_spec(s@),
{
    let chars = str_chars_vec(s);
    let trimmed = crate::format::trim_to_chars(&chars);
    chars_to_string(&trimmed)
}

/// Validate a URL for the add-feed dialog: it must be non-empty after
/// trimming and parse as a URL. Returns the error message, if any.
pub fn validate_url(url: &str) -> (r: Option<String>)
    ensures
        r.deep_view() == validate_url_spec(url@),
{
    let t = trim_str(url);
    if t.as_str().unicode_len() == 0 {
        return Option::Some(String::from_str("URL cannot be empty."));
    }
    match parse_url_check(t.as_str()) {
        Result::Ok(_) => Option::None,
        Result::Err(_) => Option::Some(String::from_str("Invalid URL.")),
    }
}

} // verus!
