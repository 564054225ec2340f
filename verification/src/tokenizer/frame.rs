//! The tokenizer never looks at the tokens it has made: what a step does
//! with a store that holds tokens is what it does with the store without
//! them, the tokens put back in front of the new ones.
use vstd::prelude::*;
use crate::error::ErrorKindModel;
use crate::html_node::Locus;
use crate::queue_iterator::QueueModel;
use crate::text::is_whitespace;
use crate::token::{AttributeQuoteType, TokenModel};
use crate::tokenizer::state::{
    attribute_name_scan,
    attribute_name_spec,
    attribute_value_scan,
    attribute_value_spec,
    bogus_comment_scan,
    bogus_comment_spec,
    closing_tag_spec,
    comment_scan,
    comment_spec,
    data_spec,
    doctype_spec,
    fallback_spec,
    markup_spec,
    opening_tag_spec,
    self_closing_spec,
    step_spec,
    Machine,
    State,
};
use crate::tokenizer::store::{EventModel, StoreModel};

verus! {

/// The store with `tokens` in front of the tokens it holds.
pub open spec fn prepend(store: StoreModel, tokens: Seq<TokenModel>) -> StoreModel {
    StoreModel { tokens: tokens + store.tokens, ..store }
}

/// The tokenizer with `tokens` in front of the tokens in its store.
pub open spec fn lift(machine: Machine, tokens: Seq<TokenModel>) -> Machine {
    Machine { store: prepend(machine.store, tokens), ..machine }
}

/// Whatever is done to a store is done alike to the store with tokens in
/// front.
pub proof fn lemma_prepend(tokens: Seq<TokenModel>)
    ensures
        forall|s: StoreModel, c: char| #[trigger]
            prepend(s, tokens).push(c) == prepend(s.push(c), tokens),
        forall|s: StoreModel, st: Seq<char>| #[trigger]
            prepend(s, tokens).push_str(st) == prepend(s.push_str(st), tokens),
        forall|s: StoreModel, c: char| #[trigger]
            prepend(s, tokens).push_attr_name(c) == prepend(s.push_attr_name(c), tokens),
        forall|s: StoreModel, c: char| #[trigger]
            prepend(s, tokens).push_attr_value(c) == prepend(s.push_attr_value(c), tokens),
        forall|s: StoreModel, q: AttributeQuoteType| #[trigger]
            prepend(s, tokens).collect_attribute(q) == prepend(s.collect_attribute(q), tokens),
        forall|s: StoreModel, e: EventModel, l: Locus| #[trigger]
            prepend(s, tokens).emit(e, l) == prepend(s.emit(e, l), tokens),
        forall|s: StoreModel, k: ErrorKindModel, l: Locus| #[trigger]
            prepend(s, tokens).error(k, l) == prepend(s.error(k, l), tokens),
        forall|s: StoreModel, l: Locus| #[trigger]
            prepend(s, tokens).set_start(l) == prepend(s.set_start(l), tokens),
        forall|s: StoreModel| #[trigger] prepend(s, tokens).clear() == prepend(s.clear(), tokens),
{
    assert forall|s: StoreModel, e: EventModel, l: Locus| #[trigger]
        prepend(s, tokens).emit(e, l) == prepend(s.emit(e, l), tokens) by {
        let a = prepend(s, tokens).emit(e, l);
        let b = prepend(s.emit(e, l), tokens);
        assert(prepend(s, tokens).token_for(e, l) == s.token_for(e, l));
        assert(a.tokens =~= b.tokens);
    }
}

/// Reading the name of an attribute does not depend on the tokens in the
/// store.
pub proof fn lemma_attribute_name_scan(store: StoreModel, stream: QueueModel, tokens: Seq<TokenModel>)
    ensures
        attribute_name_scan(prepend(store, tokens), stream) == ({
            let (named, read, end) = attribute_name_scan(store, stream);
            (prepend(named, tokens), read, end)
        }),
    decreases stream.len(),
{
    lemma_prepend(tokens);
    match stream.peek() {
        Some(ch) => {
            if !is_whitespace(ch) && ch != '=' && ch != '>' && ch != '/' {
                lemma_attribute_name_scan(store.push_attr_name(ch), stream.advance(), tokens);
            }
        },
        None => {},
    }
}

/// Reading the value of an attribute does not depend on the tokens in the
/// store.
pub proof fn lemma_attribute_value_scan(
    store: StoreModel,
    stream: QueueModel,
    quote_type: AttributeQuoteType,
    tokens: Seq<TokenModel>,
)
    ensures
        attribute_value_scan(prepend(store, tokens), stream, quote_type) == ({
            let (valued, rest, ended) = attribute_value_scan(store, stream, quote_type);
            (prepend(valued, tokens), rest, ended)
        }),
    decreases stream.len(),
{
    lemma_prepend(tokens);
    match stream.peek() {
        Some(ch) => {
            lemma_attribute_value_scan(
                store.push_attr_value(ch),
                stream.advance(),
                quote_type,
                tokens,
            );
        },
        None => {},
    }
}

/// Reading a comment does not depend on the tokens in the store.
pub proof fn lemma_comment_scan(store: StoreModel, stream: QueueModel, tokens: Seq<TokenModel>)
    ensures
        comment_scan(prepend(store, tokens), stream) == ({
            let (content, rest, closed) = comment_scan(store, stream);
            (prepend(content, tokens), rest, closed)
        }),
    decreases stream.len(),
{
    lemma_prepend(tokens);
    let s1 = stream.advance();
    let s2 = s1.advance();
    let s3 = s2.advance();
    match stream.peek() {
        Some(first) => {
            if first == '-' {
                match s1.peek() {
                    Some(second) => {
                        if second == '-' {
                            match s2.peek() {
                                Some(third) => {
                                    if third != '>' {
                                        lemma_comment_scan(
                                            store.push_str("--"@).push(third),
                                            s3,
                                            tokens,
                                        );
                                    }
                                },
                                None => {},
                            }
                        } else {
                            lemma_comment_scan(store.push('-').push(second), s2, tokens);
                        }
                    },
                    None => {},
                }
            } else {
                lemma_comment_scan(store.push(first), s1, tokens);
            }
        },
        None => {},
    }
}

/// Reading markup as a comment does not depend on the tokens in the store.
pub proof fn lemma_bogus_comment_scan(store: StoreModel, stream: QueueModel, tokens: Seq<TokenModel>)
    ensures
        bogus_comment_scan(prepend(store, tokens), stream) == ({
            let (content, rest) = bogus_comment_scan(store, stream);
            (prepend(content, tokens), rest)
        }),
    decreases stream.len(),
{
    lemma_prepend(tokens);
    match stream.peek() {
        Some(ch) => {
            if ch != '>' {
                lemma_bogus_comment_scan(store.push(ch), stream.advance(), tokens);
            }
        },
        None => {},
    }
}

/// A step of the tokenizer does not depend on the tokens in the store: it
/// leaves them where they are and adds what it makes behind them.
pub proof fn lemma_step(machine: Machine, tokens: Seq<TokenModel>)
    ensures
        step_spec(lift(machine, tokens)) == lift(step_spec(machine), tokens),
{
    lemma_prepend(tokens);
    let store = machine.store;
    let stream = machine.stream;
    match machine.state {
        None => {},
        Some(State::Data) => {
            assert(data_spec(prepend(store, tokens), stream) == lift(
                data_spec(store, stream),
                tokens,
            ));
        },
        Some(State::OpeningTag) => {
            let read = stream.advance();
            assert(markup_spec(prepend(store, tokens), read) == lift(
                markup_spec(store, read),
                tokens,
            ));
            assert(self_closing_spec(prepend(store, tokens), read) == lift(
                self_closing_spec(store, read),
                tokens,
            ));
            assert forall|ch: char| #[trigger]
                fallback_spec(prepend(store, tokens), read, ch) == lift(
                    fallback_spec(store, read, ch),
                    tokens,
                ) by {}
            assert(opening_tag_spec(prepend(store, tokens), stream) == lift(
                opening_tag_spec(store, stream),
                tokens,
            ));
        },
        Some(State::ClosingTag) => {
            assert(closing_tag_spec(prepend(store, tokens), stream) == lift(
                closing_tag_spec(store, stream),
                tokens,
            ));
        },
        Some(State::BogusComment) => {
            lemma_bogus_comment_scan(store, stream, tokens);
            assert(bogus_comment_spec(prepend(store, tokens), stream) == lift(
                bogus_comment_spec(store, stream),
                tokens,
            ));
        },
        Some(State::AttributeName) => {
            lemma_attribute_name_scan(store, stream, tokens);
            assert(attribute_name_spec(prepend(store, tokens), stream) == lift(
                attribute_name_spec(store, stream),
                tokens,
            ));
        },
        Some(State::Comment) => {
            lemma_comment_scan(store, stream, tokens);
            assert(comment_spec(prepend(store, tokens), stream) == lift(
                comment_spec(store, stream),
                tokens,
            ));
        },
        Some(State::AttributeValue) => {
            let read = stream.advance();
            match stream.peek() {
                Some(first) => {
                    let quote_type = if first == '\'' {
                        AttributeQuoteType::Single
                    } else if first == '"' {
                        AttributeQuoteType::Double
                    } else {
                        AttributeQuoteType::Unquoted
                    };
                    let opened = if first == '\'' || first == '"' {
                        read
                    } else {
                        read.push(first).left()
                    };
                    let noted = if first == '<' {
                        store.error(ErrorKindModel::UnexpectedCharacter(first), read.locus())
                    } else {
                        store
                    };
                    lemma_attribute_value_scan(noted, opened, quote_type, tokens);
                },
                None => {},
            }
            assert(attribute_value_spec(prepend(store, tokens), stream) == lift(
                attribute_value_spec(store, stream),
                tokens,
            ));
        },
        Some(State::Doctype) => {
            assert(doctype_spec(prepend(store, tokens), stream) == lift(
                doctype_spec(store, stream),
                tokens,
            ));
        },
    }
}

/// A step of the tokenizer only adds to the tokens in the store.
pub proof fn lemma_step_extends(machine: Machine)
    ensures
        step_spec(machine).store.tokens.len() >= machine.store.tokens.len(),
        step_spec(machine).store.tokens.take(machine.store.tokens.len() as int)
            == machine.store.tokens,
{
    let bare = Machine {
        store: StoreModel { tokens: Seq::empty(), ..machine.store },
        ..machine
    };
    assert(machine.store.tokens + Seq::<TokenModel>::empty() == machine.store.tokens);
    assert(lift(bare, machine.store.tokens) == machine);
    lemma_step(bare, machine.store.tokens);
    let made = step_spec(bare).store.tokens;
    assert((machine.store.tokens + made).take(machine.store.tokens.len() as int)
        =~= machine.store.tokens);
}

} // verus!
