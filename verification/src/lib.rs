//! A permissive HTML parser with a small selector engine.
//!
//! The crate has three layers: a character stream with pushback and
//! row/column tracking, a tokenizer that turns characters into HTML tokens,
//! and a tree builder that arranges tokens into a document. Selectors are
//! parsed into patterns and evaluated against the elements of a document.
//!
//! A document owns its elements. An [`ElementRef`] is the handle of an
//! element: it names the element's place in the document, and the methods
//! that read or change an element take the document as an argument.
pub mod element;
pub mod error;
pub mod event;
pub mod forest;
pub mod high_order_iterator;
pub mod html;
pub mod html_node;
pub mod matrix_iterator;
pub mod parse;
pub mod parser;
pub mod query;
pub mod queue_iterator;
pub mod selector;
pub mod stack_iterator;
pub mod tag;
pub mod text;
pub mod token;
pub mod tokenize;
pub mod tokenizer;
pub mod tree;

pub use element::{AttributeData, Element, ElementRef};
pub use error::{HtmlParseError, HtmlParseErrorType};
pub use event::{HtmlEvent, HtmlEventListener};
pub use high_order_iterator::HigherOrderIterator;
pub use html::{parse_html_input, ParseMode};
pub use html_node::{
    DocRef,
    ElementSpan,
    HtmlComment,
    HtmlDocType,
    HtmlNode,
    HtmlTextNode,
    Span,
};
pub use matrix_iterator::MatrixIterator;
pub use parse::HtmlParser;
pub use parser::speculative::{HtmlParseResult, ParserResponse, SpeculativeHtmlParser};
pub use parser::synchronous::SyncHtmlParser;
pub use queue_iterator::QueueIterator;
pub use selector::parser::{parse_selector, Emit, Relation, SelectorError};
pub use selector::pattern::{PseudoClass, Selector, SelectorPattern};
pub use selector::store::SelectorStore;
pub use stack_iterator::StackIterator;
pub use tag::HtmlTag;
pub use token::{AttributeQuoteType, CharacterRef, DocTypeIdentifier, HtmlAttribute, HtmlToken};
pub use tokenize::{tokenize_html, HtmlTokenizer};
pub use tokenizer::state::{tokenize, State};
pub use tokenizer::store::{Event, TokenStore};
pub use tree::HtmlDocument;
