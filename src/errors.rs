use vstd::prelude::*;

verus! {

/// An HTTP method token that is none of the known methods.
#[derive(Debug, Clone, Copy, PartialEq, Eq)]
pub struct HttpMethodError;

impl HttpMethodError {
    /// A human-readable description of the error.
    pub fn message(&self) -> (r: &'static str)
        ensures
            r@ == "Invalid HTTP method"@,
    {
        "Invalid HTTP method"
    }
}

/// An HTTP version token that is none of the known versions.
#[derive(Debug, Clone, Copy, PartialEq, Eq)]
pub struct HttpVersionError;

impl HttpVersionError {
    /// A human-readable description of the error.
    pub fn message(&self) -> (r: &'static str)
        ensures
            r@ == "Invalid HTTP version"@,
    {
        "Invalid HTTP version"
    }
}

/// A status code outside the range that HTTP admits (100 to 999).
#[derive(Debug, Clone, Copy, PartialEq, Eq)]
pub struct StatusCodeError {
    pub code: u16,
}

/// Why request text could not be parsed.
#[derive(Debug, Clone, Copy, PartialEq, Eq)]
pub enum ParseError {
    /// The request line has fewer than three space-separated tokens.
    MalformedRequestLine,
    /// A header line has no `:` separator; `line` is its index among the
    /// lines of the text, the request line being line 0.
    MalformedHeaderLine { line: usize },
    /// Strict parsing met an unknown method token.
    InvalidMethod,
    /// Strict parsing met an unknown version token.
    InvalidVersion,
}

} // verus!
