//! The closed set of failures the library reports.

use vstd::prelude::*;
use vstd::string::StringExecFns;

verus! {

/// One error kind per failure class: bad caller input, transport trouble,
/// unparseable feed bytes, file trouble, snapshot trouble, and a missing
/// feed or item. Each carries a detail string.
#[derive(Debug)]
pub enum Error {
    InvalidUrl(String),
    Fetch(String),
    Parse(String),
    Io(String),
    Store(String),
    NotFound(String),
}

impl Error {
    /// The message of this error, `Kind prefix: detail`.
    pub open spec fn message_spec(self) -> Seq<char> {
        match self {
            Error::InvalidUrl(m) => "Invalid URL: "@ + m@,
            Error::Fetch(m) => "Fetch failed: "@ + m@,
            Error::Parse(m) => "Parse error: "@ + m@,
            Error::Io(m) => "IO error: "@ + m@,
            Error::Store(m) => "Store error: "@ + m@,
            Error::NotFound(m) => "Not found: "@ + m@,
        }
    }

    /// Render the error as one line of text.
    pub fn message(&self) -> (r: String)
        ensures
            r@ == self.message_spec(),
    {
        match self {
            Error::InvalidUrl(m) => String::from_str("Invalid URL: ").concat(m.as_str()),
            Error::Fetch(m) => String::from_str("Fetch failed: ").concat(m.as_str()),
            Error::Parse(m) => String::from_str("Parse error: ").concat(m.as_str()),
            Error::Io(m) => String::from_str("IO error: ").concat(m.as_str()),
            Error::Store(m) => String::from_str("Store error: ").concat(m.as_str()),
            Error::NotFound(m) => String::from_str("Not found: ").concat(m.as_str()),
        }
    }
}

} // verus!
