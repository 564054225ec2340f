//! The selector parser: a state machine over the characters of a selector.
use vstd::prelude::*;
use crate::selector::store::{SelectorStore, SelectorStoreModel};
use crate::text::{
    char_is_ascii_alphanumeric,
    char_is_ascii_digit,
    char_is_ascii_whitespace,
    char_is_whitespace,
    chars_of,
    is_ascii_alphabetic,
    is_ascii_alphanumeric,
    is_ascii_digit,
    is_ascii_whitespace,
    is_whitespace,
};
use crate::token::AttributeQuoteType;

verus! {

/// Why a string is no selector.
#[derive(Clone, Copy, Debug, PartialEq, Eq, Structural)]
pub enum SelectorError {
    MultipleIds,
    InvalidTag,
    EmptySelector,
    InvalidSelector,
}

/// The states of the selector parser.
#[derive(Clone, Copy, Debug, PartialEq, Eq, Structural)]
pub enum State {
    TagName,
    Class,
    Id,
    AttributeName,
    Start,
    PossibleEnd,
    PossibleNext,
    CompulsoryNext,
    Universal,
    AttributeValue,
}

/// The patterns that the parser asks its store to make.
#[derive(Clone, Copy, Debug, PartialEq, Eq, Structural)]
pub enum Emit {
    Tag,
    Id,
    Class,
    Universal,
    Attribute,
}

/// The ways in which one selector can follow another.
#[derive(Clone, Copy, Debug, PartialEq, Eq, Structural)]
pub enum Relation {
    Descendant,
    Child,
    AdjacentSibling,
    GeneralSibling,
    Group,
}

/// Whether `ch` opens a class, an id, an attribute or a pseudo-class, and so
/// ends the pattern before it.
pub open spec fn opens_pattern(ch: char) -> bool {
    ch == '[' || ch == '.' || ch == ':' || ch == '#'
}

/// Whether `ch` is a combinator that needs no white space before it.
pub open spec fn is_combinator(ch: char) -> bool {
    ch == '>' || ch == '+' || ch == '~'
}

/// Whether `ch` may stand in the name of a tag after its first character.
pub open spec fn is_tag_char(ch: char) -> bool {
    is_ascii_alphanumeric(ch) || ch == '_' || ch == '-'
}

/// How far a state is from reading a character: a state that may leave a
/// character to be read again ranks above the state that reads it then.
pub open spec fn rank(state: State) -> nat {
    match state {
        State::Start | State::AttributeName => 0,
        State::PossibleNext | State::CompulsoryNext => 1,
        _ => 4,
    }
}

/// The character at `pos`, where the input reaches that far.
pub open spec fn char_at(input: Seq<char>, pos: int) -> Option<char> {
    if 0 <= pos < input.len() {
        Some(input[pos])
    } else {
        None
    }
}

/// What the parser makes of a name that ends before `pos`: the pattern
/// `event`, and then what follows the name. The character at `pos` is white
/// space, opens the next pattern or is a comma; with no character there the
/// selector ends with the name.
pub open spec fn after_name(
    event: Emit,
    store: SelectorStoreModel,
    input: Seq<char>,
    pos: int,
) -> Result<SelectorStoreModel, SelectorError>
    decreases input.len() - pos, 3nat,
{
    match store.emit(event) {
        Err(error) => Err(error),
        Ok(emitted) => match char_at(input, pos) {
            None => Ok(emitted),
            Some(ch) => if is_ascii_whitespace(ch) {
                parse_from(State::PossibleNext, emitted, input, pos + 1)
            } else if ch == ',' {
                parse_from(State::CompulsoryNext, emitted.shift(Relation::Group), input, pos + 1)
            } else {
                parse_from(State::Start, emitted, input, pos)
            },
        },
    }
}

/// The value of an attribute from `pos` on: up to the matching quote, or for
/// a value without quotes up to the `]`. A value without quotes holds no
/// white space, `>` or `/`.
pub open spec fn value_from(
    quote_type: AttributeQuoteType,
    store: SelectorStoreModel,
    input: Seq<char>,
    pos: int,
) -> Result<SelectorStoreModel, SelectorError>
    decreases input.len() - pos, 2nat,
{
    match char_at(input, pos) {
        None => Err(SelectorError::InvalidSelector),
        Some(ch) => if (quote_type == AttributeQuoteType::Single && ch == '\'') || (quote_type
            == AttributeQuoteType::Double && ch == '"') {
            value_end(store, input, pos + 1)
        } else if quote_type == AttributeQuoteType::Unquoted && ch == ']' {
            value_end(store, input, pos)
        } else if quote_type == AttributeQuoteType::Unquoted && (ch == '>' || ch == '/'
            || is_whitespace(ch)) {
            Err(SelectorError::InvalidSelector)
        } else {
            value_from(quote_type, store.collect_2(ch), input, pos + 1)
        },
    }
}

/// What follows the value of an attribute: white space, and then the `]`
/// that closes the attribute.
pub open spec fn value_end(store: SelectorStoreModel, input: Seq<char>, pos: int) -> Result<
    SelectorStoreModel,
    SelectorError,
>
    decreases input.len() - pos, 1nat,
{
    match char_at(input, pos) {
        None => Err(SelectorError::InvalidSelector),
        Some(ch) => if is_whitespace(ch) {
            value_end(store, input, pos + 1)
        } else if ch == ']' {
            match store.emit(Emit::Attribute) {
                Err(error) => Err(error),
                Ok(emitted) => parse_from(State::PossibleEnd, emitted, input, pos + 1),
            }
        } else {
            Err(SelectorError::InvalidSelector)
        },
    }
}

/// White space between two selectors, from `pos` on, and then what follows
/// it.
pub open spec fn space_from(store: SelectorStoreModel, input: Seq<char>, pos: int) -> Result<
    SelectorStoreModel,
    SelectorError,
>
    decreases input.len() - pos, 2nat,
{
    match char_at(input, pos) {
        Some(ch) => if is_whitespace(ch) {
            space_from(store, input, pos + 1)
        } else {
            parse_from(State::PossibleNext, store, input, pos)
        },
        None => parse_from(State::PossibleNext, store, input, pos),
    }
}

/// The outcome of parsing `input` from `pos` on, in `state` and with what
/// `store` holds: the store with the whole selector in it, or the reason
/// why the input is no selector.
pub open spec fn parse_from(
    state: State,
    store: SelectorStoreModel,
    input: Seq<char>,
    pos: int,
) -> Result<SelectorStoreModel, SelectorError>
    decreases input.len() - pos, rank(state),
{
    let next = char_at(input, pos);
    match state {
        // Initial or rest state.
        State::Start => match next {
            Some(ch) => if is_ascii_whitespace(ch) {
                parse_from(State::Start, store, input, pos + 1)
            } else if ch == '.' {
                parse_from(State::Class, store, input, pos + 1)
            } else if ch == '*' {
                parse_from(State::Universal, store, input, pos + 1)
            } else if ch == '#' {
                parse_from(State::Id, store, input, pos + 1)
            } else if ch == '[' {
                parse_from(State::AttributeName, store, input, pos + 1)
            } else if is_ascii_alphabetic(ch) || ch == '_' || ch == '-' {
                parse_from(State::TagName, store.collect(ch), input, pos + 1)
            } else if is_ascii_digit(ch) {
                Err(SelectorError::InvalidTag)
            } else {
                Err(SelectorError::InvalidSelector)
            },
            None => Err(SelectorError::EmptySelector),
        },
        // After a `.`: the name of a class.
        State::Class => match next {
            Some(ch) => if is_ascii_whitespace(ch) || opens_pattern(ch) || ch == ',' {
                after_name(Emit::Class, store, input, pos)
            } else {
                parse_from(State::Class, store.collect(ch), input, pos + 1)
            },
            None => after_name(Emit::Class, store, input, pos),
        },
        // After a `#`: an id.
        State::Id => match next {
            Some(ch) => if is_ascii_whitespace(ch) || opens_pattern(ch) || ch == ',' {
                after_name(Emit::Id, store, input, pos)
            } else {
                parse_from(State::Id, store.collect(ch), input, pos + 1)
            },
            None => after_name(Emit::Id, store, input, pos),
        },
        // After the first character of a tag's name.
        State::TagName => match next {
            Some(ch) => if is_ascii_whitespace(ch) || opens_pattern(ch) || ch == ',' {
                after_name(Emit::Tag, store, input, pos)
            } else if is_tag_char(ch) {
                parse_from(State::TagName, store.collect(ch), input, pos + 1)
            } else {
                Err(SelectorError::InvalidSelector)
            },
            None => after_name(Emit::Tag, store, input, pos),
        },
        // After a `*`.
        State::Universal => match next {
            Some(ch) => if is_ascii_whitespace(ch) || opens_pattern(ch) || ch == ',' {
                after_name(Emit::Universal, store.mark(), input, pos)
            } else if is_combinator(ch) {
                match store.mark().emit(Emit::Universal) {
                    Err(error) => Err(error),
                    Ok(emitted) => parse_from(State::PossibleNext, emitted, input, pos),
                }
            } else {
                match store.mark().emit(Emit::Universal) {
                    Err(error) => Err(error),
                    Ok(emitted) => Err(SelectorError::InvalidSelector),
                }
            },
            None => after_name(Emit::Universal, store.mark(), input, pos),
        },
        // After a `[`: the name of an attribute.
        State::AttributeName => match next {
            Some(ch) => if is_ascii_whitespace(ch) || opens_pattern(ch) || ch == ',' {
                Err(SelectorError::InvalidSelector)
            } else if ch == '=' {
                parse_from(State::AttributeValue, store, input, pos + 1)
            } else if ch == ']' {
                match store.emit(Emit::Attribute) {
                    Err(error) => Err(error),
                    Ok(emitted) => parse_from(State::PossibleEnd, emitted, input, pos + 1),
                }
            } else {
                parse_from(State::AttributeName, store.collect(ch), input, pos + 1)
            },
            None => Err(SelectorError::InvalidSelector),
        },
        // After a `=`: the value of an attribute.
        State::AttributeValue => match next {
            Some(ch) => if ch == '\'' {
                value_from(AttributeQuoteType::Single, store, input, pos + 1)
            } else if ch == '"' {
                value_from(AttributeQuoteType::Double, store, input, pos + 1)
            } else if ch == '<' {
                Err(SelectorError::InvalidSelector)
            } else {
                value_from(AttributeQuoteType::Unquoted, store, input, pos)
            },
            None => Err(SelectorError::InvalidSelector),
        },
        // After a `]`.
        State::PossibleEnd => match next {
            Some(ch) => if opens_pattern(ch) {
                parse_from(State::Start, store, input, pos)
            } else if ch == ',' {
                parse_from(State::CompulsoryNext, store.shift(Relation::Group), input, pos + 1)
            } else if is_ascii_whitespace(ch) || is_combinator(ch) {
                parse_from(State::PossibleNext, store, input, pos)
            } else {
                Err(SelectorError::InvalidSelector)
            },
            None => Ok(store),
        },
        // After a selector: a combinator, or a descendant after white space.
        State::PossibleNext => match next {
            Some(ch) => if is_ascii_whitespace(ch) {
                space_from(store, input, pos + 1)
            } else if ch == '>' {
                parse_from(State::CompulsoryNext, store.shift(Relation::Child), input, pos + 1)
            } else if ch == ',' {
                parse_from(State::CompulsoryNext, store.shift(Relation::Group), input, pos + 1)
            } else {
                parse_from(State::Start, store.shift(Relation::Descendant), input, pos)
            },
            None => Ok(store),
        },
        // After a combinator: a selector has to follow.
        State::CompulsoryNext => match next {
            Some(ch) => if is_ascii_whitespace(ch) {
                parse_from(State::CompulsoryNext, store, input, pos + 1)
            } else {
                parse_from(State::Start, store, input, pos)
            },
            None => Err(SelectorError::InvalidSelector),
        },
    }
}

/// The outcome of parsing `input` as a selector.
pub open spec fn parse_spec(input: Seq<char>) -> Result<SelectorStoreModel, SelectorError> {
    parse_from(State::Start, SelectorStoreModel::start(), input, 0)
}

/// Where a step of the parser leaves it: in a state and at a position from
/// which the outcome is `expected`, or at the end of the selector with
/// `store` as the outcome, or at an error. A step that goes on has read a
/// character, or has left the character for a state of lower rank.
pub open spec fn continues(
    step: Result<Option<(State, usize)>, SelectorError>,
    expected: Result<SelectorStoreModel, SelectorError>,
    store: SelectorStoreModel,
    input: Seq<char>,
    pos: int,
    rank_before: nat,
) -> bool {
    match step {
        Ok(Some((state, next))) => {
            &&& next <= input.len()
            &&& expected == parse_from(state, store, input, next as int)
            &&& (next > pos || (next == pos && rank(state) < rank_before))
        },
        Ok(None) => expected == Ok::<SelectorStoreModel, SelectorError>(store),
        Err(error) => expected == Err::<SelectorStoreModel, SelectorError>(error),
    }
}

/// Whether `ch` opens a class, an id, an attribute or a pseudo-class.
fn opens_pattern_char(ch: char) -> (r: bool)
    ensures
        r == opens_pattern(ch),
{
    ch == '[' || ch == '.' || ch == ':' || ch == '#'
}

/// Makes the pattern that a name stands for, and tells what follows the
/// name.
fn finish_name(event: Emit, store: &mut SelectorStore, input: &Vec<char>, pos: usize) -> (step:
    Result<Option<(State, usize)>, SelectorError>)
    requires
        old(store).wf(),
        pos <= input.len(),
    ensures
        final(store).wf(),
        continues(
            step,
            after_name(event, old(store)@, input@, pos as int),
            final(store)@,
            input@,
            pos as int,
            3,
        ),
{
    match store.emit(event) {
        Err(error) => Err(error),
        Ok(()) => {
            if pos >= input.len() {
                Ok(None)
            } else {
                let ch = input[pos];
                if char_is_ascii_whitespace(ch) {
                    Ok(Some((State::PossibleNext, pos + 1)))
                } else if ch == ',' {
                    store.shift(Relation::Group);
                    Ok(Some((State::CompulsoryNext, pos + 1)))
                } else {
                    // Push parsed data, and read the character again.
                    Ok(Some((State::Start, pos)))
                }
            }
        },
    }
}

/// Reads the value of an attribute and the `]` after it.
fn read_value(
    quote_type: AttributeQuoteType,
    store: &mut SelectorStore,
    input: &Vec<char>,
    pos: usize,
) -> (step: Result<Option<(State, usize)>, SelectorError>)
    requires
        old(store).wf(),
        pos <= input.len(),
    ensures
        final(store).wf(),
        continues(
            step,
            value_from(quote_type, old(store)@, input@, pos as int),
            final(store)@,
            input@,
            pos as int,
            0,
        ),
{
    let mut at = pos;
    loop
        invariant_except_break
            value_from(quote_type, store@, input@, at as int) == value_from(
                quote_type,
                old(store)@,
                input@,
                pos as int,
            ),
        invariant
            store.wf(),
            pos <= at <= input.len(),
        ensures
            value_end(store@, input@, at as int) == value_from(
                quote_type,
                old(store)@,
                input@,
                pos as int,
            ),
        decreases input.len() - at,
    {
        if at >= input.len() {
            return Err(SelectorError::InvalidSelector);
        }
        let ch = input[at];
        if (quote_type == AttributeQuoteType::Single && ch == '\'') || (quote_type
            == AttributeQuoteType::Double && ch == '"') {
            at = at + 1;
            break ;
        } else if quote_type == AttributeQuoteType::Unquoted && ch == ']' {
            break ;
        } else if quote_type == AttributeQuoteType::Unquoted && (ch == '>' || ch == '/'
            || char_is_whitespace(ch)) {
            return Err(SelectorError::InvalidSelector);
        } else {
            store.collect_2(ch);
            at = at + 1;
        }
    }
    while at < input.len() && char_is_whitespace(input[at])
        invariant
            store.wf(),
            pos <= at <= input.len(),
            value_end(store@, input@, at as int) == value_from(
                quote_type,
                old(store)@,
                input@,
                pos as int,
            ),
        decreases input.len() - at,
    {
        at = at + 1;
    }
    if at < input.len() && input[at] == ']' {
        match store.emit(Emit::Attribute) {
            Err(error) => Err(error),
            Ok(()) => Ok(Some((State::PossibleEnd, at + 1))),
        }
    } else {
        Err(SelectorError::InvalidSelector)
    }
}

/// One step of the parser: what `state` makes of the character at `pos`.
fn step(state: State, store: &mut SelectorStore, input: &Vec<char>, pos: usize) -> (step: Result<
    Option<(State, usize)>,
    SelectorError,
>)
    requires
        old(store).wf(),
        pos <= input.len(),
    ensures
        final(store).wf(),
        continues(
            step,
            parse_from(state, old(store)@, input@, pos as int),
            final(store)@,
            input@,
            pos as int,
            rank(state),
        ),
{
    let next = if pos < input.len() {
        Some(input[pos])
    } else {
        None
    };
    match state {
        // Initial or rest State.
        State::Start => match next {
            Some(ch) => {
                if char_is_ascii_whitespace(ch) {
                    Ok(Some((State::Start, pos + 1)))
                } else if ch == '.' {
                    Ok(Some((State::Class, pos + 1)))
                } else if ch == '*' {
                    Ok(Some((State::Universal, pos + 1)))
                } else if ch == '#' {
                    Ok(Some((State::Id, pos + 1)))
                } else if ch == '[' {
                    Ok(Some((State::AttributeName, pos + 1)))
                } else if ('A' <= ch && ch <= 'Z') || ('a' <= ch && ch <= 'z') || ch == '_' || ch
                    == '-' {
                    store.collect(ch);
                    Ok(Some((State::TagName, pos + 1)))
                } else if char_is_ascii_digit(ch) {
                    Err(SelectorError::InvalidTag)
                } else {
                    Err(SelectorError::InvalidSelector)
                }
            },
            None => Err(SelectorError::EmptySelector),
        },
        // Parsing a class. After a .
        State::Class => match next {
            Some(ch) => {
                if char_is_ascii_whitespace(ch) || opens_pattern_char(ch) || ch == ',' {
                    finish_name(Emit::Class, store, input, pos)
                } else {
                    store.collect(ch);
                    Ok(Some((State::Class, pos + 1)))
                }
            },
            None => finish_name(Emit::Class, store, input, pos),
        },
        // After a * pattern.
        State::Universal => {
            store.mark();
            match next {
                Some(ch) => {
                    if char_is_ascii_whitespace(ch) || opens_pattern_char(ch) || ch == ',' {
                        finish_name(Emit::Universal, store, input, pos)
                    } else {
                        match store.emit(Emit::Universal) {
                            Err(error) => Err(error),
                            Ok(()) => {
                                if ch == '>' || ch == '+' || ch == '~' {
                                    Ok(Some((State::PossibleNext, pos)))
                                } else {
                                    Err(SelectorError::InvalidSelector)
                                }
                            },
                        }
                    }
                },
                None => finish_name(Emit::Universal, store, input, pos),
            }
        },
        // Expecting an id. After a #.
        State::Id => match next {
            Some(ch) => {
                if char_is_ascii_whitespace(ch) || opens_pattern_char(ch) || ch == ',' {
                    finish_name(Emit::Id, store, input, pos)
                } else {
                    store.collect(ch);
                    Ok(Some((State::Id, pos + 1)))
                }
            },
            None => finish_name(Emit::Id, store, input, pos),
        },
        // Expecting an attribute name. After a [
        State::AttributeName => match next {
            Some(ch) => {
                if char_is_ascii_whitespace(ch) || opens_pattern_char(ch) || ch == ',' {
                    Err(SelectorError::InvalidSelector)
                } else if ch == '=' {
                    Ok(Some((State::AttributeValue, pos + 1)))
                } else if ch == ']' {
                    match store.emit(Emit::Attribute) {
                        Err(error) => Err(error),
                        Ok(()) => Ok(Some((State::PossibleEnd, pos + 1))),
                    }
                } else {
                    store.collect(ch);
                    Ok(Some((State::AttributeName, pos + 1)))
                }
            },
            None => Err(SelectorError::InvalidSelector),
        },
        // Expecting an attribute value. After a =
        State::AttributeValue => match next {
            Some(ch) => {
                if ch == '\'' {
                    read_value(AttributeQuoteType::Single, store, input, pos + 1)
                } else if ch == '"' {
                    read_value(AttributeQuoteType::Double, store, input, pos + 1)
                } else if ch == '<' {
                    Err(SelectorError::InvalidSelector)
                } else {
                    read_value(AttributeQuoteType::Unquoted, store, input, pos)
                }
            },
            None => Err(SelectorError::InvalidSelector),
        },
        // Parsing a tagname. After the first character in the name.
        State::TagName => match next {
            Some(ch) => {
                if char_is_ascii_whitespace(ch) || opens_pattern_char(ch) || ch == ',' {
                    finish_name(Emit::Tag, store, input, pos)
                } else if char_is_ascii_alphanumeric(ch) || ch == '_' || ch == '-' {
                    store.collect(ch);
                    Ok(Some((State::TagName, pos + 1)))
                } else {
                    Err(SelectorError::InvalidSelector)
                }
            },
            None => finish_name(Emit::Tag, store, input, pos),
        },
        // Expecting the end of input.
        State::PossibleEnd => match next {
            Some(ch) => {
                if opens_pattern_char(ch) {
                    Ok(Some((State::Start, pos)))
                } else if ch == ',' {
                    store.shift(Relation::Group);
                    Ok(Some((State::CompulsoryNext, pos + 1)))
                } else if char_is_ascii_whitespace(ch) || ch == '>' || ch == '+' || ch == '~' {
                    Ok(Some((State::PossibleNext, pos)))
                } else {
                    Err(SelectorError::InvalidSelector)
                }
            },
            None => Ok(None),
        },
        // Expecting a possible decendant selector.
        State::PossibleNext => match next {
            Some(ch) => {
                if char_is_ascii_whitespace(ch) {
                    let mut at = pos + 1;
                    while at < input.len() && char_is_whitespace(input[at])
                        invariant
                            pos < at <= input.len(),
                            space_from(store@, input@, at as int) == space_from(
                                store@,
                                input@,
                                pos + 1,
                            ),
                        decreases input.len() - at,
                    {
                        at = at + 1;
                    }
                    Ok(Some((State::PossibleNext, at)))
                } else if ch == '>' {
                    store.shift(Relation::Child);
                    Ok(Some((State::CompulsoryNext, pos + 1)))
                } else if ch == ',' {
                    store.shift(Relation::Group);
                    Ok(Some((State::CompulsoryNext, pos + 1)))
                } else {
                    store.shift(Relation::Descendant);
                    Ok(Some((State::Start, pos)))
                }
            },
            None => Ok(None),
        },
        // Expecting a child, sibling or parent selector.
        State::CompulsoryNext => match next {
            Some(ch) => {
                if char_is_ascii_whitespace(ch) {
                    Ok(Some((State::CompulsoryNext, pos + 1)))
                } else {
                    Ok(Some((State::Start, pos)))
                }
            },
            None => Err(SelectorError::InvalidSelector),
        },
    }
}

/// Parse an input string into a `SelectorStore`.
///
/// Returns a `SelectorError` instead if there is a error encountered while
/// parsing.
pub fn parse_selector(selector: &str) -> (result: Result<SelectorStore, SelectorError>)
    ensures
        match result {
            Ok(store) => store.wf() && parse_spec(selector@) == Ok::<
                SelectorStoreModel,
                SelectorError,
            >(store@),
            Err(error) => parse_spec(selector@) == Err::<SelectorStoreModel, SelectorError>(error),
        },
{
    let chars = chars_of(selector);
    let mut store = SelectorStore::new();
    let mut state = State::Start;
    let mut pos: usize = 0;
    loop
        invariant
            store.wf(),
            pos <= chars.len(),
            chars@ == selector@,
            parse_from(state, store@, chars@, pos as int) == parse_spec(selector@),
        decreases chars.len() - pos, rank(state),
    {
        match step(state, &mut store, &chars, pos) {
            Ok(Some((next_state, next_pos))) => {
                state = next_state;
                pos = next_pos;
            },
            Ok(None) => {
                return Ok(store);
            },
            Err(error) => {
                return Err(error);
            },
        }
    }
}

} // verus!
