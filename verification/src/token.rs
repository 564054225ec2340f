//! The tokens that the tokenizer hands to the tree builder.
use vstd::prelude::*;
use crate::html_node::{locus_of, Locus, Span, SpanModel};
use crate::tag::HtmlTag;

verus! {

/// How the value of an attribute was quoted in the source.
#[derive(Clone, Copy, Debug, PartialEq, Eq, Structural)]
pub enum AttributeQuoteType {
    Single,
    Double,
    Unquoted,
}

/// The identifier that a document type declaration names.
#[derive(Clone, Copy, Debug, PartialEq, Eq, Structural)]
pub enum DocTypeIdentifier {
    System,
    Public,
}

/// The character references that have a token of their own.
#[derive(Clone, Copy, Debug, PartialEq, Eq, Structural)]
pub enum CharacterRef {
    Amp,
}

/// An attribute as it stood in an opening tag. An attribute written without
/// a value has none, which is not the same as an empty value.
#[derive(Debug, PartialEq)]
pub struct HtmlAttribute {
    pub key: String,
    pub value: Option<String>,
    pub quote_type: AttributeQuoteType,
}

/// What an attribute says, with its strings as sequences of characters.
pub struct AttributeModel {
    pub key: Seq<char>,
    pub value: Option<Seq<char>>,
    pub quote_type: AttributeQuoteType,
}

/// The characters of a string that may be absent.
pub open spec fn opt_view(s: Option<String>) -> Option<Seq<char>> {
    match s {
        Some(s) => Some(s@),
        None => None,
    }
}

impl View for HtmlAttribute {
    type V = AttributeModel;

    open spec fn view(&self) -> AttributeModel {
        AttributeModel { key: self.key@, value: opt_view(self.value), quote_type: self.quote_type }
    }
}

/// The models of a sequence of attributes, in order.
pub open spec fn attributes_view(attributes: Seq<HtmlAttribute>) -> Seq<AttributeModel> {
    Seq::new(attributes.len(), |i: int| attributes[i]@)
}

/// A lexical token of an HTML source.
#[derive(Debug, PartialEq)]
#[allow(inconsistent_fields)]
pub enum HtmlToken {
    DocType { root: String, identifier: Option<DocTypeIdentifier>, force_quirks: bool },
    OpeningTag { name: HtmlTag, attributes: Vec<HtmlAttribute>, span: Span, self_closing: bool },
    ClosingTag { name: HtmlTag, span: Span },
    Text { content: String, span: Span },
    CharacterRef { kind: CharacterRef, location: Span },
    Comment { content: String, span: Span },
    EOF { location: [usize; 2] },
}

/// What a token says, with its strings as sequences of characters and its
/// tags as their names.
#[allow(inconsistent_fields)]
pub enum TokenModel {
    DocType { root: Seq<char>, identifier: Option<DocTypeIdentifier>, force_quirks: bool },
    OpeningTag { name: Seq<char>, attributes: Seq<AttributeModel>, span: SpanModel, self_closing: bool },
    ClosingTag { name: Seq<char>, span: SpanModel },
    Text { content: Seq<char>, span: SpanModel },
    CharacterRef { kind: CharacterRef, location: SpanModel },
    Comment { content: Seq<char>, span: SpanModel },
    EOF { location: Locus },
}

impl View for HtmlToken {
    type V = TokenModel;

    open spec fn view(&self) -> TokenModel {
        match self {
            HtmlToken::DocType { root, identifier, force_quirks } => TokenModel::DocType {
                root: root@,
                identifier: *identifier,
                force_quirks: *force_quirks,
            },
            HtmlToken::OpeningTag { name, attributes, span, self_closing } => TokenModel::OpeningTag {
                name: name@,
                attributes: attributes_view(attributes@),
                span: span@,
                self_closing: *self_closing,
            },
            HtmlToken::ClosingTag { name, span } => TokenModel::ClosingTag {
                name: name@,
                span: span@,
            },
            HtmlToken::Text { content, span } => TokenModel::Text { content: content@, span: span@ },
            HtmlToken::CharacterRef { kind, location } => TokenModel::CharacterRef {
                kind: *kind,
                location: location@,
            },
            HtmlToken::Comment { content, span } => TokenModel::Comment {
                content: content@,
                span: span@,
            },
            HtmlToken::EOF { location } => TokenModel::EOF { location: locus_of(*location) },
        }
    }
}

/// The models of a sequence of tokens, in order.
pub open spec fn tokens_view(tokens: Seq<HtmlToken>) -> Seq<TokenModel> {
    Seq::new(tokens.len(), |i: int| tokens[i]@)
}

impl HtmlToken {
    /// Whether every tag in the token holds its name in canonical form.
    pub open spec fn canonical(&self) -> bool {
        match self {
            HtmlToken::OpeningTag { name, .. } => name.canonical(),
            HtmlToken::ClosingTag { name, .. } => name.canonical(),
            _ => true,
        }
    }

    /// Returns `true` if the token marks the end of the input.
    #[must_use]
    pub fn is_eof(&self) -> (r: bool)
        ensures
            r == (self@ is EOF),
    {
        match self {
            HtmlToken::EOF { .. } => true,
            _ => false,
        }
    }
}

} // verus!
