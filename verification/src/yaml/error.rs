//! What is wrong with a YAML document, and where.
use vstd::prelude::*;
use vstd::string::*;

use super::position::{mark_range, span_range, Mark, SourceRange, Span};
use super::scan::{FaultKind, ScanFault};

verus! {

/// What is wrong with a YAML document, and where.
#[derive(Debug)]
pub struct ParseError {
    pub message: String,
    pub code: &'static str,
    pub range: Option<SourceRange>,
}

/// What a [`ParseError`] says.
#[verifier::ext_equal]
pub struct ErrorView {
    pub message: Seq<char>,
    pub code: Seq<char>,
    pub range: Option<SourceRange>,
}

impl View for ParseError {
    type V = ErrorView;

    open spec fn view(&self) -> ErrorView {
        ErrorView { message: self.message@, code: self.code@, range: self.range }
    }
}

/// The error at the end of a text.
pub open spec fn end_error(input: Seq<char>, message: Seq<char>) -> ErrorView {
    let end = super::position::byte_len(input) as usize;
    ErrorView {
        message,
        code: "UNEXPECTED_TOKEN"@,
        range: Some(SourceRange { start: end, end }),
    }
}

/// The error over a span.
pub open spec fn span_error(
    input: Seq<char>,
    message: Seq<char>,
    code: Seq<char>,
    span: Span,
) -> ErrorView {
    ErrorView { message, code, range: Some(span_range(input, span)) }
}

/// The code of a fault that the scanner finds.
pub open spec fn fault_code(kind: FaultKind) -> Seq<char> {
    match kind {
        FaultKind::UnknownAnchor => "BAD_ALIAS"@,
        FaultKind::MultipleDocumentsUnsupported => "MULTIPLE_DOCS"@,
        FaultKind::TooManyComments | FaultKind::AnchorCountOverflow => "RESOURCE_EXHAUSTION"@,
        FaultKind::Other => "UNEXPECTED_TOKEN"@,
    }
}

/// The error of a fault that the scanner finds.
pub open spec fn fault_error(
    input: Seq<char>,
    kind: FaultKind,
    at: Mark,
    message: Seq<char>,
) -> ErrorView {
    ErrorView { message, code: fault_code(kind), range: Some(mark_range(input, at)) }
}

/// The error of an event that does not belong where it stands.
pub open spec fn unexpected_error(
    input: Seq<char>,
    expected: Seq<char>,
    shown: Seq<char>,
    span: Span,
) -> ErrorView {
    span_error(
        input,
        "expected "@ + expected + ", found "@ + shown,
        "UNEXPECTED_TOKEN"@,
        span,
    )
}

impl ParseError {
    /// The error over a range.
    pub fn new(message: String, code: &'static str, range: SourceRange) -> (r: ParseError)
        ensures
            r@ == (ErrorView { message: message@, code: code@, range: Some(range) }),
    {
        ParseError { message, code, range: Some(range) }
    }

    /// The error over a span.
    pub fn at_span(input: &str, message: String, code: &'static str, span: &Span) -> (r: ParseError)
        ensures
            r@ == span_error(input@, message@, code@, *span),
    {
        ParseError::new(message, code, SourceRange::from_span(input, span))
    }

    /// The error at the end of a text.
    pub fn at_end(input: &str, message: &str) -> (r: ParseError)
        ensures
            r@ == end_error(input@, message@),
    {
        let bytes = input.as_bytes();
        let end: usize = bytes.len();
        assert(end == super::position::byte_len(input@));
        ParseError::new(message.to_owned(), "UNEXPECTED_TOKEN", SourceRange { start: end, end })
    }

    /// The error of a fault that the scanner finds.
    pub fn from_scan_fault(input: &str, fault: ScanFault) -> (r: ParseError)
        ensures
            r@ == fault_error(input@, fault.kind, fault.at, fault.message@),
    {
        let code = match fault.kind {
            FaultKind::UnknownAnchor => "BAD_ALIAS",
            FaultKind::MultipleDocumentsUnsupported => "MULTIPLE_DOCS",
            FaultKind::TooManyComments | FaultKind::AnchorCountOverflow => "RESOURCE_EXHAUSTION",
            FaultKind::Other => "UNEXPECTED_TOKEN",
        };
        ParseError::new(fault.message, code, SourceRange::at_marker(input, &fault.at))
    }
}

/// The error of an event that does not belong where it stands.
pub fn unexpected(input: &str, expected: &str, shown: &str, span: &Span) -> (r: ParseError)
    ensures
        r@ == unexpected_error(input@, expected@, shown@, *span),
{
    let mut message = "expected ".to_owned();
    message.append(expected);
    message.append(", found ");
    message.append(shown);
    ParseError::at_span(input, message, "UNEXPECTED_TOKEN", span)
}

} // verus!
