//! Building a document from the outcome of a tokenizer.
use vstd::prelude::*;
use crate::error::errors_view;
use crate::parser::speculative::{void_childless, HtmlParseResult};
use crate::parser::synchronous::{build_spec, SyncHtmlParser};
use crate::token::tokens_view;
use crate::tokenize::HtmlTokenizer;

verus! {

/// The parser for a source that has been tokenized already.
pub struct HtmlParser;

impl HtmlParser {
    /// Analyse an array of tokens into a document tree.
    pub fn parse(tokenizer: HtmlTokenizer) -> (result: HtmlParseResult)
        ensures
            result.tree.wf(),
            void_childless(result.tree@),
            (result.tree@, errors_view(result.errors@)) == build_spec(
                tokens_view(tokenizer.tokens@),
                errors_view(tokenizer.errors@),
            ),
    {
        SyncHtmlParser::build(tokenizer.tokens, tokenizer.errors)
    }
}

} // verus!
