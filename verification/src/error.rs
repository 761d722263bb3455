//! Recorded errors, and the ways in which a parse fails.

use vstd::prelude::*;
use vstd::string::*;

verus! {

/// Which stage recorded an error.
#[derive(Debug, Clone, Copy, PartialEq, Eq, Structural)]
pub enum ErrorType {
    ParseError,
    RuntimeError,
}

/// One recorded error: where, what, and of which kind.
#[derive(Debug, PartialEq, Eq)]
pub struct VeloError {
    pub line: usize,
    pub message: String,
    pub error_type: ErrorType,
}

/// An error as contracts speak of it.
pub struct ErrorView {
    pub line: usize,
    pub message: Seq<char>,
    pub error_type: ErrorType,
}

impl View for VeloError {
    type V = ErrorView;

    open spec fn view(&self) -> ErrorView {
        ErrorView { line: self.line, message: self.message@, error_type: self.error_type }
    }
}

impl Clone for VeloError {
    fn clone(&self) -> (r: VeloError)
        ensures
            r == *self,
    {
        VeloError { line: self.line, message: self.message.clone(), error_type: self.error_type }
    }
}

impl VeloError {
    /// An error of the given kind at `line`.
    pub fn error(line: usize, message: &str, error_type: ErrorType) -> (r: VeloError)
        ensures
            r@ == (ErrorView { line, message: message@, error_type }),
    {
        VeloError { line, message: String::from_str(message), error_type }
    }
}

/// The views of a list of errors, in order.
pub open spec fn error_views(errors: Seq<VeloError>) -> Seq<ErrorView> {
    Seq::new(errors.len(), |i: int| errors[i]@)
}

/// A parse error at `line`, as contracts speak of it.
pub open spec fn parse_error(line: usize, message: Seq<char>) -> ErrorView {
    ErrorView { line, message, error_type: ErrorType::ParseError }
}

/// A parse error at `line`.
pub fn error_at(line: usize, message: String) -> (r: VeloError)
    ensures
        r@ == parse_error(line, message@),
{
    VeloError { line, message, error_type: ErrorType::ParseError }
}

/// Why a parse gave no syntax tree.
#[derive(Debug, PartialEq, Eq)]
pub enum ParseFailure {
    /// The whole input was read; these errors were recorded on the way, in order.
    Errors(Vec<VeloError>),
    /// The parse stopped at once: nothing after this point could be made sense of.
    Fatal(VeloError),
    /// The parse stopped at a statement form that the grammar does not cover yet.
    NotImplemented(VeloError),
}

/// A failed parse as contracts speak of it.
pub enum FailureView {
    Errors(Seq<ErrorView>),
    Fatal(ErrorView),
    NotImplemented(ErrorView),
}

impl View for ParseFailure {
    type V = FailureView;

    open spec fn view(&self) -> FailureView {
        match self {
            ParseFailure::Errors(es) => FailureView::Errors(error_views(es@)),
            ParseFailure::Fatal(e) => FailureView::Fatal(e@),
            ParseFailure::NotImplemented(e) => FailureView::NotImplemented(e@),
        }
    }
}

} // verus!
