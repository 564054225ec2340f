//! Tokenizing a whole input at once.
use vstd::prelude::*;
use crate::error::{errors_view, ErrorModel, HtmlParseError};
use crate::matrix_iterator::MatrixIterator;
use crate::queue_iterator::{QueueIterator, QueueModel};
use crate::text::chars_of;
use crate::token::{tokens_view, HtmlToken, TokenModel};
use crate::tokenizer::state::{halts, tokenize, tokenize_spec};
use crate::tokenizer::store::{StoreModel, TokenStore};

verus! {

/// The outcome of tokenizing an input: its tokens, the last of which marks
/// the end of the input, and the diagnostics recorded on the way.
pub struct HtmlTokenizer {
    pub tokens: Vec<HtmlToken>,
    pub errors: Vec<HtmlParseError>,
}

/// The character stream over `input`, with rows that end at a line feed.
pub open spec fn stream_of(input: Seq<char>) -> QueueModel {
    QueueModel::start(input, '\n')
}

/// The tokens of `input`.
pub open spec fn tokens_of(input: Seq<char>) -> Seq<TokenModel> {
    tokenize_spec(StoreModel::start(), stream_of(input)).0.tokens
}

/// The diagnostics that tokenizing `input` records.
pub open spec fn token_errors_of(input: Seq<char>) -> Seq<ErrorModel> {
    tokenize_spec(StoreModel::start(), stream_of(input)).0.errors
}

/// The character stream over `input`.
pub fn char_stream(input: &str) -> (iterator: QueueIterator)
    requires
        input@.len() < usize::MAX,
    ensures
        iterator.wf(),
        iterator@ == stream_of(input@),
{
    QueueIterator::new(MatrixIterator::new(chars_of(input), '\n'))
}

/// Tokenizes `input` from its first character to its last.
pub fn tokenize_html(input: &str) -> (result: HtmlTokenizer)
    requires
        input@.len() < usize::MAX,
    ensures
        exists|steps: nat| halts(StoreModel::start(), stream_of(input@), steps),
        tokens_view(result.tokens@) == tokens_of(input@),
        errors_view(result.errors@) == token_errors_of(input@),
        result.tokens.len() > 0,
        result.tokens@.last()@ is EOF,
{
    let mut iterator = char_stream(input);
    let mut store = TokenStore::new();
    tokenize(&mut store, &mut iterator);
    let tokens = store.take_tokens();
    let errors = store.take_errors();
    assert(tokens_view(tokens@).len() == tokens@.len());
    HtmlTokenizer { tokens, errors }
}

} // verus!
