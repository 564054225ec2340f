//! The parser that tokenizes a whole source before it builds the document.
use vstd::prelude::*;
use crate::error::{errors_view, ErrorModel, HtmlParseError};
use crate::forest::DocumentModel;
use crate::parser::speculative::{void_childless, BuilderModel, HtmlParseResult, Parser};
use crate::queue_iterator::{QueueIterator, QueueModel};
use crate::token::{tokens_view, HtmlToken, TokenModel};
use crate::tokenizer::state::{halts, tokenize, tokenize_spec};
use crate::tokenizer::store::{StoreModel, TokenStore};

verus! {

/// The outcome of building a document from `tokens`, with the diagnostics
/// that tokenizing recorded: the builder takes the tokens in order. An
/// element that the end of the input leaves open is recorded at the end of
/// the input.
pub open spec fn build_spec(tokens: Seq<TokenModel>, errors: Seq<ErrorModel>) -> (
    DocumentModel,
    Seq<ErrorModel>,
) {
    BuilderModel::start().feed(tokens).finish(errors)
}

/// The outcome of parsing a source all at once: its tokens are made first
/// and the document is built from them.
pub open spec fn sync_spec(store: StoreModel, stream: QueueModel) -> (
    DocumentModel,
    Seq<ErrorModel>,
) {
    let end = tokenize_spec(store, stream).0;
    build_spec(end.tokens, end.errors)
}

/// The parser that takes the tokens of a whole source, one after the other
/// from the front.
pub struct SyncHtmlParser {
    tokens: Vec<HtmlToken>,
    index: usize,
    /// The parser removes tokens from the beginning of the token array when
    /// creating a tree. Since it uses swap_remove, the rev_separator
    /// indicates where the accessor should stop and start moving backwards
    /// to collect swapped values.
    rev_separator: usize,
    errors: Vec<HtmlParseError>,
}

impl SyncHtmlParser {
    /// The tokens that are still to come, in the order of the source. A
    /// token that was taken from the front has left its place to the token
    /// that was last, so that the tokens from the end of the source stand
    /// at the front, the last one first; once only those are left, they are
    /// taken from the back.
    pub closed spec fn remaining(&self) -> Seq<TokenModel> {
        let held = tokens_view(self.tokens@);
        Seq::new(
            held.len(),
            |i: int|
                if self.tokens.len() > self.rev_separator && self.index + i < held.len() {
                    held[self.index + i]
                } else {
                    held[held.len() - 1 - i]
                },
        )
    }

    /// The diagnostics recorded so far.
    pub closed spec fn recorded(&self) -> Seq<ErrorModel> {
        errors_view(self.errors@)
    }

    /// The parser is in a state that its own methods lead to.
    pub closed spec fn wf(&self) -> bool {
        if self.tokens.len() > self.rev_separator {
            &&& self.rev_separator == (self.tokens.len() + self.index) / 2
            &&& self.index < self.tokens.len()
        } else {
            self.rev_separator == self.tokens.len()
        }
    }

    /// The parser over `tokens`, none of which is taken yet.
    fn over(tokens: Vec<HtmlToken>, errors: Vec<HtmlParseError>) -> (parser: SyncHtmlParser)
        ensures
            parser.wf(),
            parser.remaining() == tokens_view(tokens@),
            parser.recorded() == errors_view(errors@),
    {
        let rev_separator = tokens.len() / 2;
        let parser = SyncHtmlParser { tokens, index: 0, rev_separator, errors };
        assert(parser.remaining() =~= tokens_view(tokens@));
        parser
    }

    /// Analyse an array of tokens into a document tree.
    pub fn parse(token_store: TokenStore, iterator: QueueIterator) -> (result: HtmlParseResult)
        requires
            iterator.wf(),
            iterator@.front.len() <= 1,
        ensures
            result.tree.wf(),
            void_childless(result.tree@),
            exists|steps: nat| halts(token_store@, iterator@, steps),
            (result.tree@, errors_view(result.errors@)) == sync_spec(token_store@, iterator@),
    {
        let mut token_store = token_store;
        let mut iterator = iterator;
        tokenize(&mut token_store, &mut iterator);
        let tokens = token_store.take_tokens();
        let errors = token_store.take_errors();
        SyncHtmlParser::build(tokens, errors)
    }

    /// Builds the document that `tokens` stand for.
    pub fn build(tokens: Vec<HtmlToken>, errors: Vec<HtmlParseError>) -> (result: HtmlParseResult)
        ensures
            result.tree.wf(),
            void_childless(result.tree@),
            (result.tree@, errors_view(result.errors@)) == build_spec(
                tokens_view(tokens@),
                errors_view(errors@),
            ),
    {
        let ghost all = tokens_view(tokens@);
        let mut parser = SyncHtmlParser::over(tokens, errors);
        let mut builder = Parser::new();
        let ghost mut taken: nat = 0;
        assert(all.take(0) =~= Seq::empty());
        assert(all.skip(0) =~= all);
        loop
            invariant
                parser.wf(),
                builder@.wf(),
                builder@.built(),
                taken <= all.len(),
                parser.remaining() == all.skip(taken as int),
                parser.recorded() == errors_view(errors@),
                builder@ == BuilderModel::start().feed(all.take(taken as int)),
            ensures
                builder@.wf(),
                builder@.built(),
                builder@ == BuilderModel::start().feed(all),
                parser.recorded() == errors_view(errors@),
            decreases all.len() - taken,
        {
            match parser.next() {
                Some(token) => {
                    assert(all.take(taken as int + 1).drop_last() =~= all.take(taken as int));
                    assert(all.take(taken as int + 1).last() == token@);
                    assert(all.skip(taken as int).drop_first() =~= all.skip(taken as int + 1));
                    builder.receive(token);
                    proof {
                        taken = taken + 1;
                    }
                },
                None => {
                    assert(all.take(taken as int) =~= all);
                    break ;
                },
            }
        }
        builder.finish(parser.errors)
    }

    /// The next token, in the order of the source.
    fn next(&mut self) -> (token: Option<HtmlToken>)
        requires
            old(self).wf(),
        ensures
            final(self).wf(),
            final(self).recorded() == old(self).recorded(),
            match token {
                Some(t) => old(self).remaining().len() > 0 && t@ == old(self).remaining()[0]
                    && final(self).remaining() == old(self).remaining().drop_first(),
                None => old(self).remaining().len() == 0 && final(self).remaining() == old(
                    self,
                ).remaining(),
            },
    {
        let len = self.tokens.len();
        // Front removal magic.
        if len == 0 {
            None
        } else {
            let ghost before = tokens_view(self.tokens@);
            let ghost old_tokens = self.tokens@;
            let at = if len > self.rev_separator {
                self.index += 1;
                self.index - 1
            } else {
                self.rev_separator -= 1;
                self.rev_separator
            };
            let token = self.tokens.swap_remove(at);
            proof {
                let after = tokens_view(self.tokens@);
                assert(self.tokens@ == old_tokens.update(at as int, old_tokens.last()).drop_last());
                assert forall|i: int| 0 <= i < after.len() implies after[i] == (if i == at {
                    before.last()
                } else {
                    before[i]
                }) by {}
                assert(self.remaining() =~= old(self).remaining().drop_first());
            }
            Some(token)
        }
    }
}

} // verus!
