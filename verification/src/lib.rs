//! A verified parser and serializer for the netrc credential file format:
//! a tokenizer with quoting, escaping and pushback, and a recursive-descent
//! parser building a host table and a macro table. Locating and reading the
//! file, and attaching credentials to requests, are left to callers.

pub mod laws;
pub mod lex;
pub mod model;
pub mod netrc;
pub mod roundtrip;
pub mod text;

use vstd::prelude::*;
use vstd::string::StringExecFns;

verus! {

pub use crate::netrc::{Authenticator, CredentialTable, MacroTable, Netrc, ParsingError};

/// An error that can occur when processing a netrc file: either the text of
/// the I/O failure met while reading it, or a parse failure together with the
/// file's name.
pub enum Error {
    /// The message of an I/O failure met while opening or reading the file.
    Io(String),
    /// A parse failure in a named file.
    Parsing { parser: ParsingError, filename: String },
}

impl Error {
    /// The error rendered for display: `I/O error: <message>`, or the parse
    /// error followed by ` in the file '<name>'`.
    pub fn to_text(&self) -> (r: String)
        ensures
            match self {
                Error::Io(m) => r@ == "I/O error: "@ + m@,
                Error::Parsing { parser, filename } => r@ == "parsing error: "@ + parser.msg()
                    + " (line "@ + crate::text::dec_rep(parser.line()) + ")"@ + " in the file '"@
                    + filename@ + "'"@,
            },
    {
        match self {
            Error::Io(m) => {
                let mut r = "I/O error: ".to_owned();
                r.append(m.as_str());
                r
            },
            Error::Parsing { parser, filename } => {
                let mut r = parser.to_text();
                r.append(" in the file '");
                r.append(filename.as_str());
                r.append("'");
                r
            },
        }
    }
}

} // verus!
