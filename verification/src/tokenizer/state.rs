//! The tokenizer's state machine. Each state has a function that reads from
//! the stream what belongs to it, and a model that says where that leaves the
//! store, the stream and the machine.
use vstd::prelude::*;
use vstd::string::StringExecFns;
use crate::error::{ErrorKindModel, HtmlParseErrorType};
use crate::high_order_iterator::HigherOrderIterator;
use crate::queue_iterator::{QueueIterator, QueueModel};
use crate::text::{
    char_is_ascii_alphanumeric,
    char_is_ascii_digit,
    char_is_whitespace,
    char_to_ascii_lowercase,
    is_ascii_alphanumeric,
    is_ascii_digit,
    is_whitespace,
    lowercase,
    str_eq,
    to_ascii_lowercase,
    to_lowercase,
};
use crate::token::{AttributeQuoteType, DocTypeIdentifier, TokenModel};
use crate::tokenizer::store::{Event, EventModel, StoreModel, TokenStore};

verus! {

/// The states of the tokenizer.
#[derive(Clone, Copy, Debug, PartialEq, Eq, Structural)]
pub enum State {
    Data,
    OpeningTag,
    ClosingTag,
    BogusComment,
    AttributeName,
    Comment,
    AttributeValue,
    Doctype,
}

/// The tokenizer as a whole: the state it is in, or none once it has seen
/// the end of the input, with its store and its stream.
pub struct Machine {
    pub state: Option<State>,
    pub store: StoreModel,
    pub stream: QueueModel,
}

/// Whether a character is white space.
pub open spec fn ws_pred() -> spec_fn(char) -> bool {
    |c: char| is_whitespace(c)
}

/// Whether a character is not white space.
pub open spec fn not_ws_pred() -> spec_fn(char) -> bool {
    |c: char| !is_whitespace(c)
}

/// Whether a character is white space or `>`.
pub open spec fn ws_or_gt_pred() -> spec_fn(char) -> bool {
    |c: char| is_whitespace(c) || c == '>'
}

/// Whether a character is `>`.
pub open spec fn gt_pred() -> spec_fn(char) -> bool {
    |c: char| c == '>'
}

/// How far a state is from reading a character: a state that may hand the
/// character it read back to the stream ranks above the state that it then
/// enters.
pub open spec fn rank(state: State, stream: QueueModel) -> nat {
    match state {
        State::Data | State::Doctype => 0,
        State::Comment | State::BogusComment | State::OpeningTag => 1,
        State::ClosingTag => 2,
        State::AttributeName => match stream.peek() {
            Some(c) => if is_whitespace(c) {
                0
            } else {
                2
            },
            None => 2,
        },
        State::AttributeValue => 3,
    }
}

/// Whether a step from `state` with `before` left to read came closer to the
/// end of the input: it finished, or left less to read, or left as much and
/// entered a state of lower rank.
pub open spec fn progress(
    state: State,
    before: QueueModel,
    next: Option<State>,
    after: QueueModel,
) -> bool {
    match next {
        None => true,
        Some(s) => after.len() < before.len() || (after.len() == before.len() && rank(s, after)
            < rank(state, before)),
    }
}

// Data
/// Text between tags. A `<` hands the gathered text on and opens a tag; a
/// null character is recorded and dropped; any other character joins the
/// text. The end of the input hands the text on and finishes.
pub open spec fn data_spec(store: StoreModel, stream: QueueModel) -> Machine {
    let read = stream.advance();
    let flushed = if store.has_data {
        store.emit(EventModel::Text, read.locus())
    } else {
        store
    };
    match stream.peek() {
        Some(ch) => if ch == '<' {
            Machine {
                state: Some(State::OpeningTag),
                store: flushed.set_start(read.locus()),
                stream: read,
            }
        } else if ch == '\0' {
            Machine {
                state: Some(State::Data),
                store: flushed.error(ErrorKindModel::InvalidCharacter, read.locus()),
                stream: read,
            }
        } else {
            Machine {
                state: Some(State::Data),
                store: (if store.has_data {
                    store
                } else {
                    store.set_start(read.locus())
                }).push(ch),
                stream: read,
            }
        },
        None => Machine { state: None, store: flushed, stream },
    }
}

// OpeningTag
/// After `<!` with no tag name yet: `--` opens a comment, `d` and `octype`
/// in any case open a document type, and anything else is recorded and read
/// as a comment.
pub open spec fn markup_spec(store: StoreModel, stream: QueueModel) -> Machine {
    let s1 = stream.advance();
    match stream.peek() {
        Some(first) => if first == '-' {
            let s2 = s1.advance();
            match s1.peek() {
                Some(second) => if second == '-' {
                    Machine { state: Some(State::Comment), store, stream: s2 }
                } else {
                    Machine {
                        state: Some(State::Comment),
                        store: store.push('-').push(second).error(
                            ErrorKindModel::UnexpectedCharacter(second),
                            s2.locus(),
                        ),
                        stream: s2,
                    }
                },
                None => Machine {
                    state: None,
                    store: store.push('-').emit(EventModel::Comment, s1.locus()).error(
                        ErrorKindModel::UnexpectedEndOfInput,
                        s1.locus(),
                    ),
                    stream: s1,
                },
            }
        } else if first == 'd' || first == 'D' {
            let value = s1.collected_next(6);
            let s2 = s1.advance_by(6);
            if lowercase(value) == "octype"@ {
                Machine { state: Some(State::Doctype), store, stream: s2 }
            } else {
                Machine {
                    state: Some(State::Comment),
                    store: store.push(first).push_str(value).error(
                        ErrorKindModel::UnexpectedCharacter(first),
                        s2.locus(),
                    ),
                    stream: s2,
                }
            }
        } else {
            Machine {
                state: Some(State::BogusComment),
                store: store.push(first).error(
                    ErrorKindModel::UnexpectedCharacter(first),
                    s1.locus(),
                ),
                stream: s1,
            }
        },
        None => Machine {
            state: None,
            store: store.emit(EventModel::Comment, stream.locus()).error(
                ErrorKindModel::UnexpectedEndOfInput,
                stream.locus(),
            ),
            stream,
        },
    }
}

/// After `/` in a tag that has a name: white space is skipped, `>` ends a
/// tag that closes itself, and anything else is recorded and read again as
/// an attribute.
pub open spec fn self_closing_spec(store: StoreModel, stream: QueueModel) -> Machine {
    let s1 = stream.next_while(ws_pred());
    let s2 = s1.advance();
    match s1.peek() {
        Some(ch) => if ch == '>' {
            Machine {
                state: Some(State::Data),
                store: store.emit(EventModel::OpenerTag(true), s2.locus()),
                stream: s2,
            }
        } else {
            Machine {
                state: Some(State::AttributeName),
                store: store.error(ErrorKindModel::UnexpectedCharacter(ch), s2.locus()),
                stream: s2.push(ch),
            }
        },
        None => Machine {
            state: Some(State::Data),
            store: store.clear().error(ErrorKindModel::UnexpectedEndOfInput, s1.locus()),
            stream: s1,
        },
    }
}

/// The text that a `<` becomes where no tag follows it: the `<` joins the
/// text, the character after it is recorded and read again as text.
pub open spec fn fallback_spec(store: StoreModel, read: QueueModel, ch: char) -> Machine {
    Machine {
        state: Some(State::Data),
        store: store.push('<').error(ErrorKindModel::UnexpectedCharacter(ch), read.locus()),
        stream: read.push(ch),
    }
}

/// Inside `<...`: tells a closing tag, a comment or document type, the end
/// of the tag, its name and the start of its attributes apart.
pub open spec fn opening_tag_spec(store: StoreModel, stream: QueueModel) -> Machine {
    let read = stream.advance();
    match stream.peek() {
        Some(ch) => if ch == '!' {
            if !store.has_data {
                markup_spec(store, read)
            } else {
                Machine { state: Some(State::OpeningTag), store: store.push('!'), stream: read }
            }
        } else if ch == '/' {
            if !store.has_data {
                Machine { state: Some(State::ClosingTag), store, stream: read }
            } else {
                self_closing_spec(store, read)
            }
        } else if ch == '>' {
            if !store.has_data {
                fallback_spec(store, read, ch)
            } else {
                Machine {
                    state: Some(State::Data),
                    store: store.emit(EventModel::OpenerTag(false), read.locus()),
                    stream: read,
                }
            }
        } else if is_ascii_alphanumeric(ch) || ch == '-' {
            if !store.has_data && is_ascii_digit(ch) {
                Machine {
                    state: Some(State::Data),
                    store: store.error(ErrorKindModel::UnexpectedCharacter(ch), read.locus()).push(
                        '<',
                    ).push(ch),
                    stream: read,
                }
            } else {
                Machine {
                    state: Some(State::OpeningTag),
                    store: store.push(to_ascii_lowercase(ch)),
                    stream: read,
                }
            }
        } else if is_whitespace(ch) {
            if !store.has_data {
                fallback_spec(store, read, ch)
            } else {
                Machine { state: Some(State::AttributeName), store, stream: read.push(ch) }
            }
        } else {
            if !store.has_data {
                fallback_spec(store, read, ch)
            } else {
                Machine { state: Some(State::OpeningTag), store: store.push(ch), stream: read }
            }
        },
        None => Machine {
            state: None,
            store: store.error(ErrorKindModel::UnexpectedEndOfInput, stream.locus()).push(
                '<',
            ).emit(EventModel::Text, stream.locus()),
            stream,
        },
    }
}

// ClosingTag
/// Inside `</...`: gathers the tag's name up to `>`. A name must follow at
/// once and may not start with a digit; what cannot be a closing tag is
/// recorded and read as a comment.
pub open spec fn closing_tag_spec(store: StoreModel, stream: QueueModel) -> Machine {
    let read = stream.advance();
    match stream.peek() {
        Some(ch) => if is_whitespace(ch) {
            if !store.has_data {
                Machine {
                    state: Some(State::Data),
                    store: store.error(ErrorKindModel::ExpectedTagName, read.locus()),
                    stream: read,
                }
            } else {
                Machine { state: Some(State::ClosingTag), store, stream: read }
            }
        } else if is_ascii_alphanumeric(ch) || ch == '-' {
            if !store.has_data && is_ascii_digit(ch) {
                Machine {
                    state: Some(State::BogusComment),
                    store: store.error(
                        ErrorKindModel::UnexpectedCharacter(ch),
                        read.locus(),
                    ).set_start(read.locus()),
                    stream: read.push(ch),
                }
            } else {
                Machine {
                    state: Some(State::ClosingTag),
                    store: store.push(to_ascii_lowercase(ch)),
                    stream: read,
                }
            }
        } else if ch == '>' {
            Machine {
                state: Some(State::Data),
                store: if !store.has_data {
                    store.error(ErrorKindModel::ExpectedTagName, read.locus())
                } else {
                    store.emit(EventModel::Close, read.locus())
                },
                stream: read,
            }
        } else {
            if !store.has_data {
                Machine {
                    state: Some(State::BogusComment),
                    store: store.error(ErrorKindModel::UnexpectedCharacter(ch), read.locus()),
                    stream: read.push(ch),
                }
            } else {
                Machine { state: Some(State::ClosingTag), store: store.push(ch), stream: read }
            }
        },
        None => Machine {
            state: None,
            store: store.error(ErrorKindModel::UnexpectedEndOfInput, stream.locus()),
            stream,
        },
    }
}

// AttributeName
/// How the reading of an attribute's name ended.
#[derive(Clone, Copy, PartialEq, Eq, Structural)]
pub enum NameEnd {
    /// At white space, which was skipped.
    Space,
    /// At `=`: a value follows.
    Value,
    /// At `>` or `/`, which the tag state reads again.
    Tag,
    /// At the end of the input.
    Input,
}

/// The name of an attribute, read up to its end.
pub open spec fn attribute_name_scan(store: StoreModel, stream: QueueModel) -> (
    StoreModel,
    QueueModel,
    NameEnd,
)
    decreases stream.len(),
{
    let read = stream.advance();
    match stream.peek() {
        Some(ch) => if is_whitespace(ch) {
            let skipped = read.next_until(not_ws_pred());
            match skipped.peek() {
                Some(next) => (store, skipped.advance().push(next), NameEnd::Space),
                None => (store, skipped, NameEnd::Input),
            }
        } else if ch == '=' {
            (store, read, NameEnd::Value)
        } else if ch == '>' || ch == '/' {
            (store, read.push(ch), NameEnd::Tag)
        } else {
            attribute_name_scan(store.push_attr_name(ch), read)
        },
        None => (store, stream, NameEnd::Input),
    }
}

/// Inside a tag, after its name: reads the name of an attribute. An
/// attribute whose name ends without `=` has no value.
pub open spec fn attribute_name_spec(store: StoreModel, stream: QueueModel) -> Machine {
    let (named, read, end) = attribute_name_scan(store, stream);
    let collected = if named.attr_name.len() > 0 {
        named.collect_attribute(AttributeQuoteType::Unquoted)
    } else {
        named
    };
    match end {
        NameEnd::Value => Machine { state: Some(State::AttributeValue), store: named, stream: read },
        NameEnd::Input => Machine {
            state: None,
            store: named.error(ErrorKindModel::UnexpectedEndOfInput, read.locus()).clear(),
            stream: read,
        },
        NameEnd::Tag => Machine { state: Some(State::OpeningTag), store: collected, stream: read },
        NameEnd::Space => Machine {
            state: Some(State::AttributeName),
            store: collected,
            stream: read,
        },
    }
}

// AttributeValue
/// The value of an attribute, read up to its end: the matching quote, or for
/// a value without quotes white space, `>` or `/`. The flag says whether the
/// input ended first.
pub open spec fn attribute_value_scan(
    store: StoreModel,
    stream: QueueModel,
    quote_type: AttributeQuoteType,
) -> (StoreModel, QueueModel, bool)
    decreases stream.len(),
{
    let read = stream.advance();
    match stream.peek() {
        Some(ch) => if ch == '\'' && quote_type == AttributeQuoteType::Single {
            (store, read, false)
        } else if ch == '"' && quote_type == AttributeQuoteType::Double {
            (store, read, false)
        } else if is_whitespace(ch) && quote_type == AttributeQuoteType::Unquoted {
            (store, read, false)
        } else if (ch == '>' || ch == '/') && quote_type == AttributeQuoteType::Unquoted {
            (store, read.push(ch), false)
        } else {
            attribute_value_scan(store.push_attr_value(ch), read, quote_type)
        },
        None => (store, stream, true),
    }
}

/// After `=`: reads the value of an attribute and adds the attribute to the
/// tag. A value that the end of the input cuts short is recorded and the
/// attribute dropped.
pub open spec fn attribute_value_spec(store: StoreModel, stream: QueueModel) -> Machine {
    let read = stream.advance();
    match stream.peek() {
        Some(first) => {
            let quote_type = if first == '\'' {
                AttributeQuoteType::Single
            } else if first == '"' {
                AttributeQuoteType::Double
            } else {
                AttributeQuoteType::Unquoted
            };
            let opened = if first == '\'' || first == '"' {
                read
            } else {
                read.push(first).left()
            };
            let noted = if first == '<' {
                store.error(ErrorKindModel::UnexpectedCharacter(first), read.locus())
            } else {
                store
            };
            let (valued, rest, ended) = attribute_value_scan(noted, opened, quote_type);
            Machine {
                state: Some(State::AttributeName),
                store: if ended {
                    valued.error(ErrorKindModel::UnexpectedEndOfInput, rest.locus())
                } else {
                    valued.collect_attribute(quote_type)
                },
                stream: rest,
            }
        },
        None => Machine {
            state: None,
            store: store.error(ErrorKindModel::UnexpectedEndOfInput, stream.locus()),
            stream,
        },
    }
}

// Comment
/// The content of a comment, read up to `-->` or the end of the input. The
/// flag says whether the comment was closed. Hyphens that do not close the
/// comment belong to its content.
pub open spec fn comment_scan(store: StoreModel, stream: QueueModel) -> (
    StoreModel,
    QueueModel,
    bool,
)
    decreases stream.len(),
{
    let s1 = stream.advance();
    let s2 = s1.advance();
    let s3 = s2.advance();
    match stream.peek() {
        Some(first) => if first == '-' {
            match s1.peek() {
                Some(second) => if second == '-' {
                    match s2.peek() {
                        Some(third) => if third == '>' {
                            (store, s3, true)
                        } else {
                            comment_scan(store.push_str("--"@).push(third), s3)
                        },
                        None => (store.push_str("--"@), s2, false),
                    }
                } else {
                    comment_scan(store.push('-').push(second), s2)
                },
                None => (store.push('-'), s1, false),
            }
        } else {
            comment_scan(store.push(first), s1)
        },
        None => (store, stream, false),
    }
}

/// After `<!--`: reads a comment and hands it on. A comment that the end of
/// the input cuts short is recorded and handed on all the same.
pub open spec fn comment_spec(store: StoreModel, stream: QueueModel) -> Machine {
    let (content, rest, closed) = comment_scan(store, stream);
    let noted = if closed {
        content
    } else {
        content.error(ErrorKindModel::UnclosedComment, rest.locus())
    };
    Machine {
        state: Some(State::Data),
        store: noted.emit(EventModel::Comment, rest.locus()),
        stream: rest,
    }
}

// BogusComment
/// What stands before the next `>`, or before the end of the input, read as
/// the content of a comment.
pub open spec fn bogus_comment_scan(store: StoreModel, stream: QueueModel) -> (
    StoreModel,
    QueueModel,
)
    decreases stream.len(),
{
    match stream.peek() {
        Some(ch) => if ch == '>' {
            (store, stream.advance())
        } else {
            bogus_comment_scan(store.push(ch), stream.advance())
        },
        None => (store, stream),
    }
}

/// Markup that cannot be read as what it set out to be: all of it up to the
/// next `>` is handed on as a comment.
pub open spec fn bogus_comment_spec(store: StoreModel, stream: QueueModel) -> Machine {
    let (content, rest) = bogus_comment_scan(store, stream);
    Machine {
        state: Some(State::Data),
        store: content.emit(EventModel::Comment, rest.locus()),
        stream: rest,
    }
}

// Doctype
/// The identifier that six characters name, whatever their case.
pub open spec fn identifier_of(word: Seq<char>) -> Option<DocTypeIdentifier> {
    if lowercase(word) == "system"@ {
        Some(DocTypeIdentifier::System)
    } else if lowercase(word) == "public"@ {
        Some(DocTypeIdentifier::Public)
    } else {
        None
    }
}

/// After `<!doctype`: white space, which is missed where it is absent, the
/// root name up to white space or `>`, more white space, and then `>` or an
/// identifier. A declaration without a root name forces quirks mode. An
/// identifier that is neither `system` nor `public` is recorded and the
/// declaration skipped up to its `>`. The end of the input is recorded and
/// leaves no token.
pub open spec fn doctype_spec(store: StoreModel, stream: QueueModel) -> Machine {
    let read = stream.advance();
    let (noted, spaced) = match stream.peek() {
        Some(ch) => if is_whitespace(ch) {
            (store, read.next_while(ws_pred()))
        } else {
            (store.error(ErrorKindModel::UnexpectedCharacter(ch), read.locus()), read.push(ch))
        },
        None => (store, stream),
    };
    let name = spaced.collected_until(ws_or_gt_pred());
    let named = spaced.next_until(ws_or_gt_pred()).next_while(ws_pred());
    let after = named.advance();
    match named.peek() {
        Some(ch) => if ch == '>' {
            Machine {
                state: Some(State::Data),
                store: noted.emit(EventModel::DocType(name, None, name.len() == 0), after.locus()),
                stream: after,
            }
        } else if ch == '\0' {
            Machine {
                state: Some(State::Data),
                store: noted.error(ErrorKindModel::InvalidCharacter, after.locus()).emit(
                    EventModel::DocType(name, None, false),
                    after.locus(),
                ),
                stream: after,
            }
        } else if ch == 'p' || ch == 'P' || ch == 's' || ch == 'S' {
            let word = seq![ch] + after.collected_next(5);
            let worded = after.advance_by(5);
            match identifier_of(word) {
                Some(identifier) => Machine {
                    state: Some(State::Data),
                    store: noted.emit(
                        EventModel::DocType(name, Some(identifier), false),
                        worded.locus(),
                    ),
                    stream: worded,
                },
                None => {
                    let skipped = worded.find(gt_pred());
                    Machine {
                        state: Some(State::Data),
                        store: noted.error(
                            ErrorKindModel::IndecipherableDocType,
                            worded.locus(),
                        ).emit(EventModel::DocType(name, None, false), skipped.locus()),
                        stream: skipped,
                    }
                },
            }
        } else {
            let skipped = after.find(gt_pred());
            Machine {
                state: Some(State::Data),
                store: noted.error(ErrorKindModel::IndecipherableDocType, after.locus()).emit(
                    EventModel::DocType(name, None, false),
                    skipped.locus(),
                ),
                stream: skipped,
            }
        },
        None => Machine {
            state: None,
            store: noted.error(ErrorKindModel::UnexpectedEndOfInput, named.locus()),
            stream: named,
        },
    }
}

/// One step of the tokenizer: what the state it is in reads from the stream.
/// A tokenizer that has finished stays as it is.
pub open spec fn step_spec(machine: Machine) -> Machine {
    match machine.state {
        None => machine,
        Some(State::Data) => data_spec(machine.store, machine.stream),
        Some(State::OpeningTag) => opening_tag_spec(machine.store, machine.stream),
        Some(State::ClosingTag) => closing_tag_spec(machine.store, machine.stream),
        Some(State::BogusComment) => bogus_comment_spec(machine.store, machine.stream),
        Some(State::AttributeName) => attribute_name_spec(machine.store, machine.stream),
        Some(State::Comment) => comment_spec(machine.store, machine.stream),
        Some(State::AttributeValue) => attribute_value_spec(machine.store, machine.stream),
        Some(State::Doctype) => doctype_spec(machine.store, machine.stream),
    }
}

/// The tokenizer after `steps` steps.
pub open spec fn run(machine: Machine, steps: nat) -> Machine
    decreases steps,
{
    if steps == 0 {
        machine
    } else {
        step_spec(run(machine, (steps - 1) as nat))
    }
}

/// Whether the tokenizer, started in the data state with `store` and
/// `stream`, has seen the end of the input after `steps` steps.
pub open spec fn halts(store: StoreModel, stream: QueueModel, steps: nat) -> bool {
    run(Machine { state: Some(State::Data), store, stream }, steps).state is None
}

/// The store and the stream that tokenizing leaves: those of the tokenizer
/// once it has seen the end of the input, with the token that marks the end
/// added to the store.
pub open spec fn tokenize_spec(store: StoreModel, stream: QueueModel) -> (StoreModel, QueueModel) {
    let steps = choose|steps: nat| halts(store, stream, steps);
    let end = run(Machine { state: Some(State::Data), store, stream }, steps);
    (end.store.push_token(TokenModel::EOF { location: end.stream.locus() }), end.stream)
}

/// A tokenizer that has seen the end of the input stays as it is, however
/// many steps follow.
pub proof fn lemma_run_stable(machine: Machine, first: nat, later: nat)
    requires
        run(machine, first).state is None,
        first <= later,
    ensures
        run(machine, later) == run(machine, first),
    decreases later,
{
    if first < later {
        lemma_run_stable(machine, first, (later - 1) as nat);
    }
}

/// However many steps it took to see the end of the input, the tokenizer is
/// then in the state that `tokenize_spec` speaks of.
pub proof fn lemma_halted(store: StoreModel, stream: QueueModel, steps: nat)
    requires
        halts(store, stream, steps),
    ensures
        tokenize_spec(store, stream) == ({
            let end = run(Machine { state: Some(State::Data), store, stream }, steps);
            (end.store.push_token(TokenModel::EOF { location: end.stream.locus() }), end.stream)
        }),
{
    let chosen = choose|steps: nat| halts(store, stream, steps);
    let machine = Machine { state: Some(State::Data), store, stream };
    if chosen <= steps {
        lemma_run_stable(machine, chosen, steps);
    } else {
        lemma_run_stable(machine, steps, chosen);
    }
}

/// What holds of a stream with at most one character put back once its next
/// character is read: nothing is put back any more, so that a character put
/// back now is the next one to be read.
pub proof fn lemma_read(stream: QueueModel)
    requires
        stream.wf(),
        stream.front.len() <= 1,
    ensures
        stream.advance().wf(),
        stream.advance().front.len() == 0,
        stream.peek() is Some ==> stream.advance().len() == stream.len() - 1,
        stream.peek() is None ==> stream.advance() == stream,
        stream.left().wf(),
        stream.left().len() == stream.len(),
        stream.left().front == stream.front,
        forall|c: char| #[trigger]
            stream.advance().push(c).wf() && stream.advance().push(c).peek() == Some(c)
                && stream.advance().push(c).front.len() == 1 && stream.advance().push(c).len()
                == stream.advance().len() + 1,
{
    if stream.peek() is Some {
        stream.lemma_advance();
    }
    stream.inner.lemma_left();
    assert forall|c: char| #[trigger]
        stream.advance().push(c).wf() && stream.advance().push(c).peek() == Some(c)
            && stream.advance().push(c).front.len() == 1 && stream.advance().push(c).len()
            == stream.advance().len() + 1 by {
        assert(stream.advance().front =~= Seq::empty());
    }
}

/// Skips the white space that the stream starts with.
fn skip_whitespace(iterator: &mut QueueIterator)
    requires
        old(iterator).wf(),
        old(iterator)@.front.len() <= 1,
    ensures
        final(iterator).wf(),
        final(iterator)@ == old(iterator)@.next_while(ws_pred()),
        final(iterator)@.len() <= old(iterator)@.len(),
        final(iterator)@.front.len() <= 1,
{
    proof {
        iterator.lemma_wf();
        iterator@.lemma_next_while(ws_pred());
    }
    iterator.next_while(
        |c: &char| -> (b: bool) ensures b == is_whitespace(*c) { char_is_whitespace(*c) },
    );
}

/// Skips up to the first character that is not white space.
fn skip_until_text(iterator: &mut QueueIterator)
    requires
        old(iterator).wf(),
        old(iterator)@.front.len() <= 1,
    ensures
        final(iterator).wf(),
        final(iterator)@ == old(iterator)@.next_until(not_ws_pred()),
        final(iterator)@.len() <= old(iterator)@.len(),
        final(iterator)@.front.len() <= 1,
{
    proof {
        iterator.lemma_wf();
        iterator@.lemma_next_until(not_ws_pred());
    }
    iterator.next_until(
        |c: &char| -> (b: bool) ensures b == !is_whitespace(*c) { !char_is_whitespace(*c) },
    );
}

/// Skips up to and including the next `>`.
fn skip_past_tag_end(iterator: &mut QueueIterator)
    requires
        old(iterator).wf(),
        old(iterator)@.front.len() <= 1,
    ensures
        final(iterator).wf(),
        final(iterator)@ == old(iterator)@.find(gt_pred()),
        final(iterator)@.len() <= old(iterator)@.len(),
        final(iterator)@.front.len() <= 1,
{
    proof {
        iterator.lemma_wf();
        iterator@.lemma_find(gt_pred());
    }
    iterator.find(
        |c: &char| -> (b: bool) ensures b == (*c == '>') { *c == '>' },
    );
}

/// Reads a name: the characters before the next white space or `>`.
fn collect_name(iterator: &mut QueueIterator) -> (name: String)
    requires
        old(iterator).wf(),
        old(iterator)@.front.len() <= 1,
    ensures
        final(iterator).wf(),
        final(iterator)@ == old(iterator)@.next_until(ws_or_gt_pred()),
        name@ == old(iterator)@.collected_until(ws_or_gt_pred()),
        final(iterator)@.len() <= old(iterator)@.len(),
        final(iterator)@.front.len() <= 1,
{
    proof {
        iterator.lemma_wf();
        iterator@.lemma_next_until(ws_or_gt_pred());
    }
    iterator.collect_until(
        |c: &char| -> (b: bool) ensures b == (is_whitespace(*c) || *c == '>') { char_is_whitespace(*c) || *c == '>' },
    )
}

/// Reads the next `count` characters.
fn collect_word(iterator: &mut QueueIterator, count: usize) -> (word: String)
    requires
        old(iterator).wf(),
        old(iterator)@.front.len() <= 1,
    ensures
        final(iterator).wf(),
        final(iterator)@ == old(iterator)@.advance_by(count as nat),
        word@ == old(iterator)@.collected_next(count as nat),
        final(iterator)@.len() <= old(iterator)@.len(),
        final(iterator)@.front.len() <= 1,
{
    proof {
        iterator.lemma_wf();
        iterator@.lemma_advance_by(count as nat);
    }
    iterator.collect_next(count)
}

/// Reads the next character.
fn read(iterator: &mut QueueIterator) -> (item: Option<char>)
    requires
        old(iterator).wf(),
        old(iterator)@.front.len() <= 1,
    ensures
        final(iterator).wf(),
        item == old(iterator)@.peek(),
        final(iterator)@ == old(iterator)@.advance(),
        final(iterator)@.front.len() == 0,
        item is Some ==> final(iterator)@.len() == old(iterator)@.len() - 1,
        item is None ==> final(iterator)@ == old(iterator)@,
{
    proof {
        iterator.lemma_wf();
        lemma_read(iterator@);
    }
    iterator.next()
}

/// Puts back the character that was just read.
fn unread(iterator: &mut QueueIterator, ch: char)
    requires
        old(iterator).wf(),
        old(iterator)@.front.len() == 0,
    ensures
        final(iterator).wf(),
        final(iterator)@ == old(iterator)@.push(ch),
        final(iterator)@.front.len() == 1,
        final(iterator)@.peek() == Some(ch),
        final(iterator)@.len() == old(iterator)@.len() + 1,
{
    iterator.push(ch);
    proof {
        assert(old(iterator)@.front =~= Seq::empty());
    }
}

/// The data state: text between tags.
fn data_state(token_store: &mut TokenStore, iterator: &mut QueueIterator) -> (next: Option<State>)
    requires
        old(iterator).wf(),
        old(iterator)@.front.len() <= 1,
    ensures
        final(iterator).wf(),
        final(iterator)@.front.len() <= 1,
        (Machine { state: next, store: final(token_store)@, stream: final(iterator)@ })
            == data_spec(old(token_store)@, old(iterator)@),
        progress(State::Data, old(iterator)@, next, final(iterator)@),
{
    match read(iterator) {
        Some(ch) => {
            if ch == '<' {
                if !token_store.empty() {
                    token_store.emit(Event::Text, iterator);
                }
                token_store.set_start(iterator);
                Some(State::OpeningTag)
            } else if ch == '\0' {
                // Parse error caused by null character.
                if !token_store.empty() {
                    token_store.emit(Event::Text, iterator);
                }
                token_store.error(HtmlParseErrorType::InvalidCharacter, iterator);
                Some(State::Data)
            } else {
                // Collect the starting point of the text node.
                if token_store.empty() {
                    token_store.set_start(iterator)
                }
                token_store.push(ch);
                Some(State::Data)
            }
        },
        None => {
            if !token_store.empty() {
                token_store.emit(Event::Text, iterator);
            }
            None
        },
    }
}

/// After `<!` with no tag name yet: a comment, a document type, or markup
/// that is read as a comment.
fn markup_state(token_store: &mut TokenStore, iterator: &mut QueueIterator) -> (next: Option<
    State,
>)
    requires
        old(iterator).wf(),
        old(iterator)@.front.len() == 0,
    ensures
        final(iterator).wf(),
        final(iterator)@.front.len() <= 1,
        (Machine { state: next, store: final(token_store)@, stream: final(iterator)@ })
            == markup_spec(old(token_store)@, old(iterator)@),
        final(iterator)@.len() <= old(iterator)@.len(),
{
    // Collect next two characters and check if they match commment start (--).
    match read(iterator) {
        Some(first) => {
            if first == '-' {
                match read(iterator) {
                    Some(second) => {
                        if second == '-' {
                            Some(State::Comment)
                        } else {
                            // Take first - as part of the comment.
                            token_store.push('-');
                            token_store.push(second);
                            token_store.error(
                                HtmlParseErrorType::UnexpectedCharacter(second),
                                iterator,
                            );
                            Some(State::Comment)
                        }
                    },
                    None => {
                        token_store.push('-');
                        token_store.emit(Event::Comment, iterator);
                        token_store.error(HtmlParseErrorType::UnexpectedEndOfInput, iterator);
                        None
                    },
                }
            } else if first == 'd' || first == 'D' {
                // Check for !doctype
                let value = collect_word(iterator, 6);
                let lower = to_lowercase(value.as_str());
                if str_eq(lower.as_str(), "octype") {
                    Some(State::Doctype)
                } else {
                    token_store.push(first);
                    token_store.push_str(value.as_str());
                    token_store.error(HtmlParseErrorType::UnexpectedCharacter(first), iterator);
                    Some(State::Comment)
                }
            } else {
                token_store.push(first);
                token_store.error(HtmlParseErrorType::UnexpectedCharacter(first), iterator);
                Some(State::BogusComment)
            }
        },
        // Default to comment.
        None => {
            token_store.emit(Event::Comment, iterator);
            token_store.error(HtmlParseErrorType::UnexpectedEndOfInput, iterator);
            None
        },
    }
}

/// After `/` in a tag that has a name: the tag closes itself, or the `/` was
/// out of place.
fn self_closing_state(token_store: &mut TokenStore, iterator: &mut QueueIterator) -> (next:
    Option<State>)
    requires
        old(iterator).wf(),
        old(iterator)@.front.len() == 0,
    ensures
        final(iterator).wf(),
        final(iterator)@.front.len() <= 1,
        (Machine { state: next, store: final(token_store)@, stream: final(iterator)@ })
            == self_closing_spec(old(token_store)@, old(iterator)@),
        final(iterator)@.len() <= old(iterator)@.len(),
{
    skip_whitespace(iterator);
    match read(iterator) {
        Some(ch) => {
            if ch == '>' {
                // tag is self-closing.
                token_store.emit(Event::OpenerTag(true), iterator);
                Some(State::Data)
            } else {
                // Parse error. Scan character again as attribute.
                token_store.error(HtmlParseErrorType::UnexpectedCharacter(ch), iterator);
                unread(iterator, ch);
                Some(State::AttributeName)
            }
        },
        // Tag was unclosed.
        None => {
            token_store.clear();
            token_store.error(HtmlParseErrorType::UnexpectedEndOfInput, iterator);
            Some(State::Data)
        },
    }
}

/// A `<` that opens no tag becomes text, and the character after it is read
/// again as text.
fn fallback_to_text(token_store: &mut TokenStore, iterator: &mut QueueIterator, ch: char) -> (next:
    Option<State>)
    requires
        old(iterator).wf(),
        old(iterator)@.front.len() == 0,
    ensures
        final(iterator).wf(),
        final(iterator)@.front.len() == 1,
        (Machine { state: next, store: final(token_store)@, stream: final(iterator)@ })
            == fallback_spec(old(token_store)@, old(iterator)@, ch),
        final(iterator)@.len() == old(iterator)@.len() + 1,
{
    token_store.push('<');
    unread(iterator, ch);
    token_store.error(HtmlParseErrorType::UnexpectedCharacter(ch), iterator);
    Some(State::Data)
}

/// The opening-tag state: a tag has been opened.
fn opening_tag_state(token_store: &mut TokenStore, iterator: &mut QueueIterator) -> (next: Option<
    State,
>)
    requires
        old(iterator).wf(),
        old(iterator)@.front.len() <= 1,
    ensures
        final(iterator).wf(),
        final(iterator)@.front.len() <= 1,
        (Machine { state: next, store: final(token_store)@, stream: final(iterator)@ })
            == opening_tag_spec(old(token_store)@, old(iterator)@),
        progress(State::OpeningTag, old(iterator)@, next, final(iterator)@),
{
    match read(iterator) {
        Some(ch) => {
            if ch == '!' {
                if token_store.empty() {
                    // Comment or Doctype tag.
                    markup_state(token_store, iterator)
                } else {
                    // Tagnames has already started parsing.
                    token_store.push('!');
                    Some(State::OpeningTag)
                }
            } else if ch == '/' {
                if token_store.empty() {
                    // There is nothing between < and /. Parse as closing tag.
                    Some(State::ClosingTag)
                } else {
                    // Open tag is possibly self-closing.
                    self_closing_state(token_store, iterator)
                }
            } else if ch == '>' {
                if token_store.empty() {
                    // Parse <> as text.
                    fallback_to_text(token_store, iterator, ch)
                } else {
                    // Push an opening tag with no attributes.
                    token_store.emit(Event::OpenerTag(false), iterator);
                    Some(State::Data)
                }
            } else if char_is_ascii_alphanumeric(ch) || ch == '-' {
                // Tags cannot start with numeric values. Reparse the tag as plain text.
                if token_store.empty() && char_is_ascii_digit(ch) {
                    token_store.error(HtmlParseErrorType::UnexpectedCharacter(ch), iterator);
                    token_store.push('<');
                    token_store.push(ch);
                    Some(State::Data)
                } else {
                    token_store.push(char_to_ascii_lowercase(ch));
                    Some(State::OpeningTag)
                }
            } else if char_is_whitespace(ch) {
                if token_store.empty() {
                    // Parse error. Expected a tagname to be present. Reparse tag as text.
                    fallback_to_text(token_store, iterator, ch)
                } else {
                    // Parsing an attribute. Revisit the current character as an attribute name.
                    unread(iterator, ch);
                    Some(State::AttributeName)
                }
            } else {
                if token_store.empty() {
                    // Emit as text.
                    fallback_to_text(token_store, iterator, ch)
                } else {
                    // Add to tag name.
                    token_store.push(ch);
                    Some(State::OpeningTag)
                }
            }
        },
        None => {
            token_store.error(HtmlParseErrorType::UnexpectedEndOfInput, iterator);
            // Emit as text.
            token_store.push('<');
            token_store.emit(Event::Text, iterator);
            None
        },
    }
}

/// The closing-tag state: a closing tag has been opened.
fn closing_tag_state(token_store: &mut TokenStore, iterator: &mut QueueIterator) -> (next: Option<
    State,
>)
    requires
        old(iterator).wf(),
        old(iterator)@.front.len() <= 1,
    ensures
        final(iterator).wf(),
        final(iterator)@.front.len() <= 1,
        (Machine { state: next, store: final(token_store)@, stream: final(iterator)@ })
            == closing_tag_spec(old(token_store)@, old(iterator)@),
        progress(State::ClosingTag, old(iterator)@, next, final(iterator)@),
{
    match read(iterator) {
        Some(ch) => {
            if char_is_whitespace(ch) {
                // tagnames must directly follow the </
                if token_store.empty() {
                    token_store.error(HtmlParseErrorType::ExpectedTagName, iterator);
                    Some(State::Data)
                } else {
                    Some(State::ClosingTag)
                }
            } else if char_is_ascii_alphanumeric(ch) || ch == '-' {
                // closing tags cannot start with numbers. Reparse the tag as a bogus comment.
                if token_store.empty() && char_is_ascii_digit(ch) {
                    token_store.error(HtmlParseErrorType::UnexpectedCharacter(ch), iterator);
                    unread(iterator, ch);
                    // Start bogus comment here.
                    token_store.set_start(iterator);
                    Some(State::BogusComment)
                } else {
                    // Collect character for html tagname.
                    token_store.push(char_to_ascii_lowercase(ch));
                    Some(State::ClosingTag)
                }
            } else if ch == '>' {
                // Tag was closed without any name.
                if token_store.empty() {
                    token_store.error(HtmlParseErrorType::ExpectedTagName, iterator);
                } else {
                    token_store.emit(Event::Close, iterator);
                }
                Some(State::Data)
            } else {
                if token_store.empty() {
                    unread(iterator, ch);
                    token_store.error(HtmlParseErrorType::UnexpectedCharacter(ch), iterator);
                    Some(State::BogusComment)
                } else {
                    // Add to tag name.
                    token_store.push(ch);
                    Some(State::ClosingTag)
                }
            }
        },
        None => {
            token_store.error(HtmlParseErrorType::UnexpectedEndOfInput, iterator);
            None
        },
    }
}

/// The attribute-name state: parsing an attribute name.
fn attribute_name_state(token_store: &mut TokenStore, iterator: &mut QueueIterator) -> (next:
    Option<State>)
    requires
        old(iterator).wf(),
        old(iterator)@.front.len() <= 1,
    ensures
        final(iterator).wf(),
        final(iterator)@.front.len() <= 1,
        (Machine { state: next, store: final(token_store)@, stream: final(iterator)@ })
            == attribute_name_spec(old(token_store)@, old(iterator)@),
        progress(State::AttributeName, old(iterator)@, next, final(iterator)@),
{
    let mut end: Option<NameEnd> = None;
    // Collect characters until a = is encountered or the input ends.
    while end.is_none()
        invariant
            iterator.wf(),
            iterator@.front.len() <= 1,
            iterator@.len() <= old(iterator)@.len(),
            end is None ==> attribute_name_scan(token_store@, iterator@) == attribute_name_scan(
                old(token_store)@,
                old(iterator)@,
            ),
            end matches Some(e) ==> (token_store@, iterator@, e) == attribute_name_scan(
                old(token_store)@,
                old(iterator)@,
            ),
            end == Some(NameEnd::Space) || end == Some(NameEnd::Value) ==> iterator@.len() < old(
                iterator,
            )@.len(),
            end == Some(NameEnd::Tag) && iterator@.len() == old(iterator)@.len() ==> rank(
                State::AttributeName,
                old(iterator)@,
            ) == 2,
        decreases iterator@.len() + (if end is None { 1nat } else { 0nat }),
    {
        let ghost consumed = iterator@.len() < old(iterator)@.len();
        match read(iterator) {
            Some(ch) => {
                if char_is_whitespace(ch) {
                    // Skip over succeeding whitespaces.
                    skip_until_text(iterator);
                    match read(iterator) {
                        // Another attribute encountered. Reparse as attribute name.
                        Some(next) => {
                            unread(iterator, next);
                            end = Some(NameEnd::Space);
                        },
                        // Input ended without tag close.
                        None => {
                            end = Some(NameEnd::Input);
                        },
                    }
                } else if ch == '=' {
                    // Expect attribute value.
                    end = Some(NameEnd::Value);
                } else if ch == '>' || ch == '/' {
                    // End of tag. Parse end in tag state.
                    unread(iterator, ch);
                    end = Some(NameEnd::Tag);
                } else {
                    // Push character into name.
                    token_store.push_attr_name(ch);
                }
            },
            // Input ends abruptly.
            None => {
                end = Some(NameEnd::Input);
            },
        }
    }
    match end {
        // = encountered. attribute equals something.
        Some(NameEnd::Value) => Some(State::AttributeValue),
        // Input ended unexpectedly.
        Some(NameEnd::Input) | None => {
            token_store.error(HtmlParseErrorType::UnexpectedEndOfInput, iterator);
            token_store.clear();
            None
        },
        Some(NameEnd::Tag) => {
            // Only collect attribute if there is an attribute to collect.
            if !token_store.attr_name_is_empty() {
                // Attribute has no value.
                token_store.collect_attribute(AttributeQuoteType::Unquoted)
            }
            Some(State::OpeningTag)
        },
        Some(NameEnd::Space) => {
            if !token_store.attr_name_is_empty() {
                token_store.collect_attribute(AttributeQuoteType::Unquoted)
            }
            Some(State::AttributeName)
        },
    }
}

/// The attribute-value state: parsing what follows the `=` of an attribute.
fn attribute_value_state(token_store: &mut TokenStore, iterator: &mut QueueIterator) -> (next:
    Option<State>)
    requires
        old(iterator).wf(),
        old(iterator)@.front.len() <= 1,
    ensures
        final(iterator).wf(),
        final(iterator)@.front.len() <= 1,
        (Machine { state: next, store: final(token_store)@, stream: final(iterator)@ })
            == attribute_value_spec(old(token_store)@, old(iterator)@),
        progress(State::AttributeValue, old(iterator)@, next, final(iterator)@),
{
    let mut quote_type = AttributeQuoteType::Unquoted;
    // Check for quote type.
    match read(iterator) {
        Some(first) => {
            if first == '\'' {
                quote_type = AttributeQuoteType::Single;
            } else if first == '"' {
                quote_type = AttributeQuoteType::Double;
            } else {
                if first == '<' {
                    token_store.error(HtmlParseErrorType::UnexpectedCharacter(first), iterator);
                }
                unread(iterator, first);
                proof {
                    iterator.lemma_wf();
                    lemma_read(iterator@);
                }
                iterator.inner_mut().left();
            }
        },
        None => {
            token_store.error(HtmlParseErrorType::UnexpectedEndOfInput, iterator);
            return None;
        },
    }
    // Gather values.
    let ghost opened = iterator@;
    let ghost noted = token_store@;
    let mut ended = false;
    let mut done = false;
    while !done
        invariant
            iterator.wf(),
            iterator@.front.len() <= 1,
            iterator@.len() <= opened.len(),
            !done ==> !ended,
            !done ==> attribute_value_scan(token_store@, iterator@, quote_type)
                == attribute_value_scan(noted, opened, quote_type),
            done ==> (token_store@, iterator@, ended) == attribute_value_scan(
                noted,
                opened,
                quote_type,
            ),
        decreases iterator@.len() + (if done { 0nat } else { 1nat }),
    {
        match read(iterator) {
            Some(ch) => {
                if ch == '\'' && quote_type == AttributeQuoteType::Single {
                    done = true;
                } else if ch == '"' && quote_type == AttributeQuoteType::Double {
                    done = true;
                } else if char_is_whitespace(ch) && quote_type == AttributeQuoteType::Unquoted {
                    done = true;
                } else if (ch == '>' || ch == '/') && quote_type == AttributeQuoteType::Unquoted {
                    // End of tag.
                    unread(iterator, ch);
                    done = true;
                } else {
                    token_store.push_attr_value(ch);
                }
            },
            None => {
                ended = true;
                done = true;
            },
        }
    }
    if ended {
        token_store.error(HtmlParseErrorType::UnexpectedEndOfInput, iterator);
    } else {
        token_store.collect_attribute(quote_type);
    }
    Some(State::AttributeName)
}

/// The comment state: a comment has been opened with `<!--`.
fn comment_state(token_store: &mut TokenStore, iterator: &mut QueueIterator) -> (next: Option<
    State,
>)
    requires
        old(iterator).wf(),
        old(iterator)@.front.len() <= 1,
    ensures
        final(iterator).wf(),
        final(iterator)@.front.len() <= 1,
        (Machine { state: next, store: final(token_store)@, stream: final(iterator)@ })
            == comment_spec(old(token_store)@, old(iterator)@),
        progress(State::Comment, old(iterator)@, next, final(iterator)@),
{
    let mut is_closed = false;
    let mut done = false;
    while !done
        invariant
            iterator.wf(),
            iterator@.front.len() <= 1,
            iterator@.len() <= old(iterator)@.len(),
            !done ==> !is_closed,
            !done ==> comment_scan(token_store@, iterator@) == comment_scan(
                old(token_store)@,
                old(iterator)@,
            ),
            done ==> (token_store@, iterator@, is_closed) == comment_scan(
                old(token_store)@,
                old(iterator)@,
            ),
        decreases iterator@.len() + (if done { 0nat } else { 1nat }),
    {
        match read(iterator) {
            Some(first) => {
                if first == '-' {
                    // Attempt to close, First -
                    match read(iterator) {
                        Some(second) => {
                            if second == '-' {
                                // Second -
                                match read(iterator) {
                                    Some(third) => {
                                        if third == '>' {
                                            // Comment closed.
                                            is_closed = true;
                                            done = true;
                                        } else {
                                            // Any character, not a >
                                            token_store.push_str("--");
                                            token_store.push(third);
                                        }
                                    },
                                    None => {
                                        token_store.push_str("--");
                                        done = true;
                                    },
                                }
                            } else {
                                // Any character, not a -
                                token_store.push('-');
                                token_store.push(second);
                            }
                        },
                        // Comment unclosed. Retrieve - and break
                        None => {
                            token_store.push('-');
                            done = true;
                        },
                    }
                } else {
                    // Push any character to store.
                    token_store.push(first);
                }
            },
            None => {
                done = true;
            },
        }
    }
    if !is_closed {
        token_store.error(HtmlParseErrorType::UnclosedComment, iterator);
    }
    token_store.emit(Event::Comment, iterator);
    Some(State::Data)
}

/// The bogus-comment state: the result of a parse error. The tag is read as
/// a comment.
fn bogus_comment_state(token_store: &mut TokenStore, iterator: &mut QueueIterator) -> (next:
    Option<State>)
    requires
        old(iterator).wf(),
        old(iterator)@.front.len() <= 1,
    ensures
        final(iterator).wf(),
        final(iterator)@.front.len() <= 1,
        (Machine { state: next, store: final(token_store)@, stream: final(iterator)@ })
            == bogus_comment_spec(old(token_store)@, old(iterator)@),
        progress(State::BogusComment, old(iterator)@, next, final(iterator)@),
{
    let mut done = false;
    while !done
        invariant
            iterator.wf(),
            iterator@.front.len() <= 1,
            iterator@.len() <= old(iterator)@.len(),
            !done ==> bogus_comment_scan(token_store@, iterator@) == bogus_comment_scan(
                old(token_store)@,
                old(iterator)@,
            ),
            done ==> (token_store@, iterator@) == bogus_comment_scan(
                old(token_store)@,
                old(iterator)@,
            ),
        decreases iterator@.len() + (if done { 0nat } else { 1nat }),
    {
        match read(iterator) {
            Some(ch) => {
                if ch == '>' {
                    done = true;
                } else {
                    // Push any character to store.
                    token_store.push(ch);
                }
            },
            None => {
                done = true;
            },
        }
    }
    token_store.emit(Event::Comment, iterator);
    Some(State::Data)
}

/// The identifier that the six characters of `word` name.
fn identifier(word: &str) -> (r: Option<DocTypeIdentifier>)
    ensures
        r == identifier_of(word@),
{
    let lower = to_lowercase(word);
    if str_eq(lower.as_str(), "system") {
        Some(DocTypeIdentifier::System)
    } else if str_eq(lower.as_str(), "public") {
        Some(DocTypeIdentifier::Public)
    } else {
        None
    }
}

/// The doctype state: `<!doctype` has been read.
fn doctype_state(token_store: &mut TokenStore, iterator: &mut QueueIterator) -> (next: Option<
    State,
>)
    requires
        old(iterator).wf(),
        old(iterator)@.front.len() <= 1,
    ensures
        final(iterator).wf(),
        final(iterator)@.front.len() <= 1,
        (Machine { state: next, store: final(token_store)@, stream: final(iterator)@ })
            == doctype_spec(old(token_store)@, old(iterator)@),
        progress(State::Doctype, old(iterator)@, next, final(iterator)@),
{
    // Expect a whitespace character.
    match read(iterator) {
        Some(ch) => {
            if char_is_whitespace(ch) {
                // One whitespace found, Ignore rest.
                skip_whitespace(iterator);
            } else {
                // Parse error. parse anyway.
                unread(iterator, ch);
                token_store.error(HtmlParseErrorType::UnexpectedCharacter(ch), iterator);
            }
        },
        None => {},
    }
    let name = collect_name(iterator);
    // Skip whitespace.
    skip_whitespace(iterator);
    match read(iterator) {
        Some(ch) => {
            let mut identifier_found: Option<DocTypeIdentifier> = None;
            let mut force_quirks = false;
            if ch == '>' {
                force_quirks = name.as_str().is_empty();
            } else if ch == '\0' {
                token_store.error(HtmlParseErrorType::InvalidCharacter, iterator);
            } else if ch == 'p' || ch == 'P' || ch == 's' || ch == 'S' {
                // Try to parse identifier.
                let rest = collect_word(iterator, 5);
                let mut word = String::new();
                word.push(ch);
                word.append(rest.as_str());
                assert(word@ =~= seq![ch] + rest@);
                identifier_found = identifier(word.as_str());
                if identifier_found.is_none() {
                    token_store.error(HtmlParseErrorType::IndecipherableDocType, iterator);
                    skip_past_tag_end(iterator);
                }
            } else {
                token_store.error(HtmlParseErrorType::IndecipherableDocType, iterator);
                skip_past_tag_end(iterator);
            }
            token_store.emit(Event::DocType(name, identifier_found, force_quirks), iterator);
            Some(State::Data)
        },
        None => {
            token_store.error(HtmlParseErrorType::UnexpectedEndOfInput, iterator);
            None
        },
    }
}

/// One step of the tokenizer: reads from the stream what belongs to `state`
/// and returns the state to go on in, or none at the end of the input.
pub fn step(state: State, token_store: &mut TokenStore, iterator: &mut QueueIterator) -> (next:
    Option<State>)
    requires
        old(iterator).wf(),
        old(iterator)@.front.len() <= 1,
    ensures
        final(iterator).wf(),
        final(iterator)@.front.len() <= 1,
        (Machine { state: next, store: final(token_store)@, stream: final(iterator)@ })
            == step_spec(
            Machine { state: Some(state), store: old(token_store)@, stream: old(iterator)@ },
        ),
        progress(state, old(iterator)@, next, final(iterator)@),
{
    match state {
        // Parse regular html text, without any formatting.
        State::Data => data_state(token_store, iterator),
        // A tag has been opened.
        State::OpeningTag => opening_tag_state(token_store, iterator),
        // A closing tag has been opened.
        State::ClosingTag => closing_tag_state(token_store, iterator),
        // Result of a parse error. Attempt to parse tag as comment.
        State::BogusComment => bogus_comment_state(token_store, iterator),
        // Parsing an attribute name.
        State::AttributeName => attribute_name_state(token_store, iterator),
        // A comment has been opened with <!--
        State::Comment => comment_state(token_store, iterator),
        State::AttributeValue => attribute_value_state(token_store, iterator),
        State::Doctype => doctype_state(token_store, iterator),
    }
}

/// Tokenize an input string: runs the tokenizer from the data state to the
/// end of the input and adds the token that marks the end. The tokenizer
/// reaches the end of every input.
pub fn tokenize(token_store: &mut TokenStore, iterator: &mut QueueIterator)
    requires
        old(iterator).wf(),
        old(iterator)@.front.len() <= 1,
    ensures
        final(iterator).wf(),
        exists|steps: nat| halts(old(token_store)@, old(iterator)@, steps),
        (final(token_store)@, final(iterator)@) == tokenize_spec(
            old(token_store)@,
            old(iterator)@,
        ),
        final(token_store)@.tokens.len() > 0,
        final(token_store)@.tokens.last() is EOF,
{
    // Starting state.
    let mut state = State::Data;
    let ghost start = Machine {
        state: Some(State::Data),
        store: token_store@,
        stream: iterator@,
    };
    let ghost mut steps: nat = 0;
    loop
        invariant_except_break
            run(start, steps) == (Machine {
                state: Some(state),
                store: token_store@,
                stream: iterator@,
            }),
        invariant
            iterator.wf(),
            iterator@.front.len() <= 1,
        ensures
            run(start, steps) == (Machine { state: None, store: token_store@, stream: iterator@ }),
        decreases iterator@.len(), rank(state, iterator@),
    {
        let next = step(state, token_store, iterator);
        proof {
            steps = steps + 1;
        }
        match next {
            Some(s) => {
                state = s;
            },
            None => {
                break ;
            },
        }
    }
    token_store.push_eof(iterator);
    proof {
        assert(halts(start.store, start.stream, steps));
        lemma_halted(start.store, start.stream, steps);
    }
}

} // verus!
