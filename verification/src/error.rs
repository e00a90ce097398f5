//! What can go wrong between asking for a page and holding a model of it.
use vstd::prelude::*;

use crate::text::{debug_quoted, decimal, decimal_string, quoted};

verus! {

/// The library's errors. Transport failures (HTTP, I/O) belong to the
/// program that performs the transport; what the library itself decides is
/// here.
#[derive(Debug)]
pub enum Error {
    /// A page fetch came back with a non-success status.
    Fetch { url: String, status: u16 },
    /// The archive answered, but the page wasn't the shape the parser expects.
    /// Carries what was being looked for, not the whole document.
    Parse { what: &'static str, url: String },
    NotFound(String),
    /// A path that doesn't belong to any known archive. Guards against the
    /// fetcher being pointed at arbitrary hosts by a composed query.
    ForeignPath(String),
    InvalidArgument(String),
    Cache(String),
    /// A value could not be written as JSON; the serialiser's message.
    Json(String),
}

/// What an error says to whoever reads it.
pub open spec fn message_of(e: Error) -> Seq<char> {
    match e {
        Error::Fetch { url, status } => "Fetch failed: "@ + url@ + " returned "@ + decimal(status as nat),
        Error::Parse { what, url } => "Could not parse "@ + what@ + " from "@ + url@,
        Error::NotFound(s) => "Not found: "@ + s@,
        Error::ForeignPath(p) => debug_quoted(p@) + FOREIGN_TAIL@,
        Error::InvalidArgument(s) => "Invalid argument: "@ + s@,
        Error::Cache(s) => "Cache error: "@ + s@,
        Error::Json(s) => "JSON error: "@ + s@,
    }
}

/// What follows the quoted path in a refusal of a foreign path.
pub const FOREIGN_TAIL: &'static str = " is not a path on any archive this tool knows about";

fn joined(head: &str, tail: &str) -> (r: String)
    ensures
        r@ == head@ + tail@,
{
    let mut r = String::from_str(head);
    r.append(tail);
    r
}

impl Error {
    /// The error as a sentence, as the command line and GraphQL errors show it.
    pub fn message(&self) -> (r: String)
        ensures
            r@ == message_of(*self),
    {
        match self {
            Error::Fetch { url, status } => {
                let mut r = joined("Fetch failed: ", url.as_str());
                r.append(" returned ");
                r.append(decimal_string(*status as usize).as_str());
                r
            },
            Error::Parse { what, url } => {
                let mut r = joined("Could not parse ", what);
                r.append(" from ");
                r.append(url.as_str());
                r
            },
            Error::NotFound(s) => joined("Not found: ", s.as_str()),
            Error::ForeignPath(p) => {
                let mut r = quoted(p.as_str());
                r.append(FOREIGN_TAIL);
                r
            },
            Error::InvalidArgument(s) => joined("Invalid argument: ", s.as_str()),
            Error::Cache(s) => joined("Cache error: ", s.as_str()),
            Error::Json(s) => joined("JSON error: ", s.as_str()),
        }
    }
}

} // verus!
