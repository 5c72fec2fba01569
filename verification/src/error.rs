//! The one error type of the parser: a kind, the line it arose on, and the
//! offending text.
use crate::section::{Section, SectionView};
use vstd::prelude::*;

verus! {

/// What went wrong.
#[derive(Debug)]
pub enum ParseErrorType {
    /// A character that no identifier may hold at that place.
    SectionIdentifier(char),
    /// A colon after an identifier that is referred to, not defined.
    UnexpectedColon,
    /// No colon after an identifier that is being defined.
    MissingColon,
    /// An identifier without a letter.
    MissingAlphabetic,
    /// Kept for callers that match on every kind; the parser never reports it.
    UnexpectedSeparator,
    /// A choice line without an arrow, or with an escaped one.
    MissingArrow,
    /// A choice line with more than one arrow.
    MultipleArrows,
    /// A section without a choice, or a line that is no choice among the choices.
    ExpectedChoice,
    /// A section without a description.
    ExpectedDescription,
    /// A name defined twice: the later section, then the earlier one.
    DuplicateSections(Section, Section),
    /// A choice that leads to a section that nothing defines.
    DanglingGoto,
    /// A labelled choice that leads to `END`.
    InvalidEnd,
    /// An unlabelled choice beside other choices.
    ChoiceShorthandNotLone,
    /// A reserved name used for a section or written out as a target.
    ReservedKeyUsage,
}

/// The mathematical form of a [`ParseErrorType`].
pub enum ErrorKind {
    SectionIdentifier(char),
    UnexpectedColon,
    MissingColon,
    MissingAlphabetic,
    UnexpectedSeparator,
    MissingArrow,
    MultipleArrows,
    ExpectedChoice,
    ExpectedDescription,
    DuplicateSections(SectionView, SectionView),
    DanglingGoto,
    InvalidEnd,
    ChoiceShorthandNotLone,
    ReservedKeyUsage,
}

impl View for ParseErrorType {
    type V = ErrorKind;

    open spec fn view(&self) -> ErrorKind {
        match self {
            ParseErrorType::SectionIdentifier(c) => ErrorKind::SectionIdentifier(*c),
            ParseErrorType::UnexpectedColon => ErrorKind::UnexpectedColon,
            ParseErrorType::MissingColon => ErrorKind::MissingColon,
            ParseErrorType::MissingAlphabetic => ErrorKind::MissingAlphabetic,
            ParseErrorType::UnexpectedSeparator => ErrorKind::UnexpectedSeparator,
            ParseErrorType::MissingArrow => ErrorKind::MissingArrow,
            ParseErrorType::MultipleArrows => ErrorKind::MultipleArrows,
            ParseErrorType::ExpectedChoice => ErrorKind::ExpectedChoice,
            ParseErrorType::ExpectedDescription => ErrorKind::ExpectedDescription,
            ParseErrorType::DuplicateSections(later, earlier) => ErrorKind::DuplicateSections(
                later@,
                earlier@,
            ),
            ParseErrorType::DanglingGoto => ErrorKind::DanglingGoto,
            ParseErrorType::InvalidEnd => ErrorKind::InvalidEnd,
            ParseErrorType::ChoiceShorthandNotLone => ErrorKind::ChoiceShorthandNotLone,
            ParseErrorType::ReservedKeyUsage => ErrorKind::ReservedKeyUsage,
        }
    }
}

/// A failure of the parser.
#[derive(Debug)]
pub struct ParseError {
    error_type: ParseErrorType,
    /// Counted from 0.
    line_num: usize,
    text: String,
}

/// The mathematical form of a [`ParseError`].
pub struct ErrorView {
    pub kind: ErrorKind,
    /// Counted from 0.
    pub line_num: nat,
    pub text: Seq<char>,
}

impl View for ParseError {
    type V = ErrorView;

    closed spec fn view(&self) -> ErrorView {
        ErrorView { kind: self.error_type@, line_num: self.line_num as nat, text: self.text@ }
    }
}

/// Whether `r` is what `model` describes: the same outcome, with the same view.
pub open spec fn agrees<T: View>(r: Result<T, ParseError>, model: Result<T::V, ErrorView>) -> bool {
    match model {
        Ok(v) => r matches Ok(x) && x@ == v,
        Err(e) => r matches Err(x) && x@ == e,
    }
}

impl ParseError {
    /// An error of kind `error_type` on line `line_num` (counted from 0), with
    /// the offending `text`.
    pub fn new(error_type: ParseErrorType, line_num: usize, text: String) -> (e: ParseError)
        ensures
            e@ == (ErrorView { kind: error_type@, line_num: line_num as nat, text: text@ }),
    {
        ParseError { error_type, line_num, text }
    }

    /// What went wrong.
    pub fn error_type(&self) -> (kind: &ParseErrorType)
        ensures
            kind@ == self@.kind,
    {
        &self.error_type
    }

    /// The line the error arose on, counted from 0.
    pub fn line_num(&self) -> (n: usize)
        ensures
            n == self@.line_num,
    {
        self.line_num
    }

    /// The line the error arose on as shown to a reader, counted from 1;
    /// `None` where that number does not fit.
    pub fn display_line(&self) -> (n: Option<usize>)
        ensures
            match n {
                Some(k) => k == self@.line_num + 1,
                None => self@.line_num + 1 > usize::MAX,
            },
    {
        self.line_num.checked_add(1)
    }

    /// The offending text.
    pub fn text(&self) -> (t: &str)
        ensures
            t@ == self@.text,
    {
        self.text.as_str()
    }
}

} // verus!
