//! The diagnostics that tokenizing and tree building record. None of them
//! stops a parse.
use vstd::prelude::*;
use crate::html_node::{locus_of, Locus};
use crate::tag::HtmlTag;

verus! {

/// The kinds of diagnostic.
#[derive(Debug)]
pub enum HtmlParseErrorType {
    InvalidCharacter,
    UnexpectedEndOfInput,
    UnexpectedCharacter(char),
    ExpectedTagName,
    UnclosedComment,
    IndecipherableDocType,
    SelfClosingNonVoidTag,
    VoidElementEndTag(HtmlTag),
    UnclosedTag(HtmlTag),
    UnexpectedCloseTag(HtmlTag),
}

/// A kind of diagnostic, with the tag it speaks of as a name.
pub enum ErrorKindModel {
    InvalidCharacter,
    UnexpectedEndOfInput,
    UnexpectedCharacter(char),
    ExpectedTagName,
    UnclosedComment,
    IndecipherableDocType,
    SelfClosingNonVoidTag,
    VoidElementEndTag(Seq<char>),
    UnclosedTag(Seq<char>),
    UnexpectedCloseTag(Seq<char>),
}

impl View for HtmlParseErrorType {
    type V = ErrorKindModel;

    open spec fn view(&self) -> ErrorKindModel {
        match self {
            HtmlParseErrorType::InvalidCharacter => ErrorKindModel::InvalidCharacter,
            HtmlParseErrorType::UnexpectedEndOfInput => ErrorKindModel::UnexpectedEndOfInput,
            HtmlParseErrorType::UnexpectedCharacter(c) => ErrorKindModel::UnexpectedCharacter(*c),
            HtmlParseErrorType::ExpectedTagName => ErrorKindModel::ExpectedTagName,
            HtmlParseErrorType::UnclosedComment => ErrorKindModel::UnclosedComment,
            HtmlParseErrorType::IndecipherableDocType => ErrorKindModel::IndecipherableDocType,
            HtmlParseErrorType::SelfClosingNonVoidTag => ErrorKindModel::SelfClosingNonVoidTag,
            HtmlParseErrorType::VoidElementEndTag(t) => ErrorKindModel::VoidElementEndTag(t@),
            HtmlParseErrorType::UnclosedTag(t) => ErrorKindModel::UnclosedTag(t@),
            HtmlParseErrorType::UnexpectedCloseTag(t) => ErrorKindModel::UnexpectedCloseTag(t@),
        }
    }
}

impl Default for HtmlParseErrorType {
    /// The kind that stands where none was given: an invalid character.
    fn default() -> (kind: HtmlParseErrorType)
        ensures
            kind@ == ErrorKindModel::InvalidCharacter,
    {
        HtmlParseErrorType::InvalidCharacter
    }
}

/// A diagnostic: its kind and the position it was recorded at.
#[derive(Debug)]
pub struct HtmlParseError {
    pub error_type: HtmlParseErrorType,
    pub location: [usize; 2],
}

/// What a diagnostic says.
pub struct ErrorModel {
    pub kind: ErrorKindModel,
    pub location: Locus,
}

impl View for HtmlParseError {
    type V = ErrorModel;

    open spec fn view(&self) -> ErrorModel {
        ErrorModel { kind: self.error_type@, location: locus_of(self.location) }
    }
}

/// The models of a sequence of diagnostics, in order.
pub open spec fn errors_view(errors: Seq<HtmlParseError>) -> Seq<ErrorModel> {
    Seq::new(errors.len(), |i: int| errors[i]@)
}

} // verus!
