use vstd::prelude::*;

verus! {

/// The closed set of structural failures a parse can report.
///
/// Every error aborts the whole parse: no partial message is ever produced.
#[derive(Clone, Copy, Debug, PartialEq, Eq, Structural)]
pub enum ParsingError {
    /// The first-line token is not one of the nine request verbs.
    UnknownMethod,
    /// Malformed or truncated first line: bad terminator, bad UTF-8,
    /// missing or extra fields, or a non-numeric response code.
    IndecipherableRequestLine,
    /// A request's trailing protocol token is not exactly `HTTP/1.1`.
    UnsupportedProtocol,
    /// Malformed header line: bad terminator, bad UTF-8, or no `:` separator.
    IllegalHeader,
    /// The `content-length` value is not a clean non-negative integer.
    UnparseableContentLength,
    /// The declared content length exceeds the bytes actually available.
    ContentTooShort,
}

} // verus!
