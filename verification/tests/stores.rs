use sleek::error::HtmlParseErrorType;
use sleek::high_order_iterator::HigherOrderIterator;
use sleek::html_node::{ElementSpan, HtmlNode, Span};
use sleek::selector::parser::{parse_selector, Emit, Relation, SelectorError};
use sleek::selector::pattern::{Selector, SelectorPattern};
use sleek::selector::store::SelectorStore;
use sleek::tag::HtmlTag;
use sleek::text::{is_all_whitespace, join, split_words, str_eq, to_lowercase};
use sleek::token::{AttributeQuoteType, HtmlToken};
use sleek::tokenize::char_stream;
use sleek::tokenizer::state::{step, tokenize, State};
use sleek::tokenizer::store::{Event, TokenStore};

#[test]
fn store_hands_on_what_it_gathered() {
    let mut iterator = char_stream("<a b>");
    let mut store = TokenStore::new();
    assert!(store.empty());
    for _ in 0..5 {
        iterator.next();
    }
    store.set_start(&iterator);
    store.push('D');
    store.push_str("iv");
    assert!(!store.empty());
    store.push_attr_name('k');
    store.collect_attribute(AttributeQuoteType::Unquoted);
    store.push_attr_name('x');
    store.push_attr_value('1');
    store.push_attr_value('2');
    store.collect_attribute(AttributeQuoteType::Single);
    store.error(HtmlParseErrorType::ExpectedTagName, &iterator);
    store.emit(Event::OpenerTag(false), &iterator);
    assert!(store.empty());
    assert_eq!(store.errors.len(), 1);
    assert_eq!(store.errors[0].location, [1, 6]);
    assert_eq!(store.tokens.len(), 1);
    match &store.tokens[0] {
        HtmlToken::OpeningTag { name, attributes, span, self_closing } => {
            assert_eq!(name, &HtmlTag::Div);
            assert!(!self_closing);
            assert_eq!((span.start, span.end), ([1, 5], [1, 6]));
            assert_eq!(attributes.len(), 2);
            assert_eq!(attributes[0].key, "k");
            assert_eq!(attributes[0].value, None);
            assert_eq!(attributes[1].key, "x");
            assert_eq!(attributes[1].value.as_deref(), Some("12"));
            assert_eq!(attributes[1].quote_type, AttributeQuoteType::Single);
        }
        other => panic!("{:?}", other),
    }
    // White space alone makes no text.
    store.push(' ');
    store.emit(Event::Text, &iterator);
    assert_eq!(store.tokens.len(), 1);
    assert!(store.empty());
    store.push('x');
    store.push_attr_name('y');
    store.clear();
    store.emit(Event::Comment, &iterator);
    assert!(matches!(&store.tokens[1], HtmlToken::Comment { content, .. } if content.is_empty()));
    store.collect_attribute(AttributeQuoteType::Double);
    store.emit(Event::OpenerTag(true), &iterator);
    assert!(matches!(
        &store.tokens[2],
        HtmlToken::OpeningTag { attributes, self_closing: true, .. }
            if attributes.len() == 1 && attributes[0].key.is_empty()
    ));
    store.emit(Event::Close, &iterator);
    store.emit(Event::DocType("html".to_string(), None, false), &iterator);
    assert_eq!(store.take_tokens().len(), 5);
    assert_eq!(store.take_errors().len(), 1);
    assert_eq!(store.tokens.len(), 0);
}

#[test]
fn tokenizer_steps_one_state_at_a_time() {
    let mut iterator = char_stream("<p>");
    let mut store = TokenStore::new();
    assert_eq!(step(State::Data, &mut store, &mut iterator), Some(State::OpeningTag));
    assert_eq!(step(State::OpeningTag, &mut store, &mut iterator), Some(State::OpeningTag));
    assert_eq!(store.tokens.len(), 0);
    assert_eq!(step(State::OpeningTag, &mut store, &mut iterator), Some(State::Data));
    assert_eq!(store.tokens.len(), 1);
    assert_eq!(step(State::Data, &mut store, &mut iterator), None);
    assert_eq!(store.tokens.len(), 1);

    let mut iterator = char_stream("x");
    let mut store = TokenStore::new();
    tokenize(&mut store, &mut iterator);
    assert_eq!(store.tokens.len(), 2);
    assert_eq!(iterator.inner().locus(), [1, 2]);
}

#[test]
fn selector_store_builds_the_selector() {
    let mut store = SelectorStore::new();
    assert_eq!(store.host(), &Selector::new());
    assert!(matches!(store.emit(Emit::Class), Err(SelectorError::InvalidSelector)));
    store.collect('D');
    store.collect('i');
    store.collect('v');
    assert!(store.emit(Emit::Tag).is_ok());
    store.collect('a');
    assert!(store.emit(Emit::Id).is_ok());
    store.collect('b');
    assert!(matches!(store.emit(Emit::Id), Err(SelectorError::MultipleIds)));
    // What was gathered is still there.
    assert!(store.emit(Emit::Class).is_ok());
    store.collect('k');
    store.collect_2('v');
    assert!(store.emit(Emit::Attribute).is_ok());
    store.collect('k');
    assert!(store.emit(Emit::Attribute).is_ok());
    store.mark();
    assert!(store.emit(Emit::Universal).is_ok());
    assert_eq!(
        store.host().patterns,
        vec![
            SelectorPattern::Tag(HtmlTag::Div),
            SelectorPattern::Id("a".to_string()),
            SelectorPattern::Class("b".to_string()),
            SelectorPattern::Attribute("k".to_string(), Some("v".to_string())),
            SelectorPattern::Attribute("k".to_string(), None),
            SelectorPattern::Universal,
        ]
    );
}

fn class(name: &str) -> Selector {
    Selector { patterns: vec![SelectorPattern::Class(name.to_string())] }
}

#[test]
fn selector_store_relates_selectors() {
    let parsed = |text: &str| parse_selector(text).ok().map(|store| store.host().patterns.len());
    assert_eq!(parsed(".a .b"), Some(1));
    assert_eq!(parsed(".a > .b"), Some(2));

    let store = parse_selector(".a .b").ok().unwrap();
    assert_eq!(
        store.host().patterns,
        vec![SelectorPattern::Descendant(Box::new(class("a")), Box::new(class("b")))]
    );
    let store = parse_selector(".a > .b").ok().unwrap();
    assert_eq!(
        store.host().patterns,
        vec![
            SelectorPattern::Child(Box::new(class("a")), Box::new(Selector::new())),
            SelectorPattern::Class("b".to_string()),
        ]
    );
    let store = parse_selector(".a, .b,.c").ok().unwrap();
    assert_eq!(
        store.host().patterns,
        vec![SelectorPattern::Group(vec![class("a"), class("b"), class("c")])]
    );
    let store = parse_selector(".a, .b .c").ok().unwrap();
    assert_eq!(
        store.host().patterns,
        vec![SelectorPattern::Group(vec![
            class("a"),
            Selector {
                patterns: vec![
                    SelectorPattern::Descendant(Box::new(class("b")), Box::new(Selector::new())),
                    SelectorPattern::Class("c".to_string()),
                ]
            },
        ])]
    );

    let mut store = SelectorStore::new();
    store.collect('a');
    store.emit(Emit::Class).ok().unwrap();
    store.shift(Relation::AdjacentSibling);
    store.collect('b');
    store.emit(Emit::Class).ok().unwrap();
    assert_eq!(
        store.host().patterns,
        vec![
            SelectorPattern::AdjacentSibling(Box::new(class("a")), Box::new(Selector::new())),
            SelectorPattern::Class("b".to_string()),
        ]
    );
}

#[test]
fn text_helpers() {
    assert!(str_eq("", ""));
    assert!(str_eq("aé", "aé"));
    assert!(!str_eq("a", "ab"));
    assert!(!str_eq("ab", "a"));
    assert!(!str_eq("ab", "ac"));
    assert_eq!(to_lowercase("AbC-É1"), "abc-É1");
    assert!(is_all_whitespace(""));
    assert!(is_all_whitespace(" \t\n\u{a0}\u{3000}"));
    assert!(!is_all_whitespace(" x "));
    assert_eq!(join(&vec![]), "");
    assert_eq!(join(&vec!["a".to_string()]), "a");
    assert_eq!(join(&vec!["a".to_string(), "".to_string(), "b".to_string()]), "a  b");
    assert_eq!(split_words("a  b"), vec!["a", "b"]);
}

#[test]
fn tags_are_told_by_their_lower_case_name() {
    assert_eq!(HtmlTag::new("DIV".to_string()), HtmlTag::Div);
    assert_eq!(HtmlTag::new("bR".to_string()), HtmlTag::Br);
    assert_eq!(HtmlTag::new("my-Tag".to_string()), HtmlTag::Other("my-tag".to_string()));
    assert_eq!(HtmlTag::new("".to_string()), HtmlTag::Other(String::new()));
    for name in [
        "area", "base", "br", "col", "embed", "hr", "img", "input", "link", "meta", "source",
        "track", "wbr",
    ] {
        assert!(HtmlTag::new(name.to_string()).is_void(), "{}", name);
        assert!(HtmlTag::Other(name.to_string()).is_void(), "{}", name);
    }
    for name in ["div", "p", "script", "a", "are", "brr", "", "x"] {
        assert!(!HtmlTag::new(name.to_string()).is_void(), "{}", name);
    }
    assert_eq!(HtmlTag::Section.as_str(), "section");
    assert_eq!(HtmlTag::Other("x".to_string()).to_string(), "x");
    assert!(HtmlTag::Div.same(&HtmlTag::Other("div".to_string())));
    assert!(!HtmlTag::Div.same(&HtmlTag::Span));
    assert_eq!(HtmlTag::Other("q".to_string()).clone(), HtmlTag::Other("q".to_string()));
}

#[test]
fn spans_and_nodes() {
    let span = Span::over([1, 2], [3, 4]);
    assert_eq!((span.start, span.end), ([1, 2], [3, 4]));
    let empty = ElementSpan::empty();
    assert_eq!(empty.open_tag, Span::over([0, 0], [0, 0]));
    assert_eq!(empty.close_tag, None);
    let res = sleek::html::parse_html_input("<p>x</p>", sleek::html::ParseMode::Synchronous);
    let node = &res.tree.nodes[0];
    assert!(node.is_element());
    let p = node.as_element_ref().unwrap();
    assert_eq!(p.element(&res.tree).location.close_tag, Some(Span::over([1, 5], [1, 9])));
    match &p.element(&res.tree).child_nodes[0] {
        HtmlNode::Text(text) => {
            assert!(!p.element(&res.tree).child_nodes[0].is_element());
            assert_eq!(p.element(&res.tree).child_nodes[0].as_element_ref(), None);
            assert_eq!(text.content, "x");
        }
        other => panic!("{:?}", other),
    }
}
