//! URL validation through the url crate, behind a trusted wrapper.

use vstd::prelude::*;

verus! {

/// Whether the url crate accepts this text as an absolute URL.
pub uninterp spec fn url_parse_ok(s: Seq<char>) -> bool;

/// Relies on url::Url::parse (through str::parse): acceptance depends
/// on the characters alone; a rejection carries the parser's message.
#[verifier::external_body]
pub(crate) fn parse_url_check(s: &str) -> (r: Result<(), String>)
    ensures
        r is Ok <==> url_parse_ok(s@),
{
    match s.parse::<url::Url>() {
        Ok(_) => Ok(()),
        Err(e) => Err(e.to_string()),
    }
}

} // verus!
