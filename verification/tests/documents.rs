use sleek::element::ElementRef;
use sleek::error::HtmlParseErrorType;
use sleek::html::{parse_html_input, ParseMode};
use sleek::html_node::HtmlNode;
use sleek::selector::parser::{parse_selector, SelectorError};
use sleek::tag::HtmlTag;
use sleek::token::{AttributeQuoteType, DocTypeIdentifier, HtmlToken};
use sleek::tokenize::tokenize_html;
use sleek::tree::HtmlDocument;

#[test]
fn valid_html_has_one_child_and_its_text() {
    for mode in [ParseMode::Synchronous, ParseMode::Speculative] {
        let res = parse_html_input("<html lang=en>This is valid html.</html>", mode);
        assert_eq!(res.errors.len(), 0);
        assert_eq!(res.tree.nodes.len(), 1);
        let children = res.tree.children();
        assert_eq!(children.len(), 1);
        let html = children[0];
        assert_eq!(html.tag_name(&res.tree), &HtmlTag::Html);
        assert_eq!(html.get_text_content(&res.tree), "This is valid html.");
        assert_eq!(html.get_attribute(&res.tree, "lang"), Some(&"en".to_string()));
        // The position that is reported stands one column back for each
        // attribute value without quotes that was read.
        assert_eq!(html.get_end(&res.tree), [1, 40]);
    }
}

#[test]
fn self_closing_input_is_no_error() {
    for mode in [ParseMode::Synchronous, ParseMode::Speculative] {
        let res = parse_html_input("<input />", mode);
        assert_eq!(res.errors.len(), 0, "{:?}", res.errors);
        let children = res.tree.children();
        assert_eq!(children.len(), 1);
        assert_eq!(children[0].tag_name(&res.tree), &HtmlTag::Input);
        assert!(!children[0].has_children(&res.tree));
    }
    let tokens = tokenize_html("<input />").tokens;
    assert!(matches!(&tokens[0], HtmlToken::OpeningTag { self_closing: true, .. }));
}

#[test]
fn self_closing_button_is_recorded() {
    let tokenized = tokenize_html("<button disabled/>");
    match &tokenized.tokens[0] {
        HtmlToken::OpeningTag { name, attributes, self_closing, .. } => {
            assert_eq!(name, &HtmlTag::Button);
            assert!(*self_closing);
            assert_eq!(attributes.len(), 1);
            assert_eq!(attributes[0].key, "disabled");
            assert_eq!(attributes[0].value, None);
            assert_eq!(attributes[0].quote_type, AttributeQuoteType::Unquoted);
        }
        other => panic!("not an opening tag: {:?}", other),
    }
    for mode in [ParseMode::Synchronous, ParseMode::Speculative] {
        let res = parse_html_input("<button disabled/>", mode);
        assert_eq!(res.errors.len(), 1);
        assert!(matches!(res.errors[0].error_type, HtmlParseErrorType::SelfClosingNonVoidTag));
        assert_eq!(res.errors[0].location, [1, 19]);
        // The element is there, and nothing is left open.
        assert_eq!(res.tree.children().len(), 1);
    }
}

#[test]
fn numeric_tags_give_text_and_comment() {
    let result = tokenize_html("<123></123>");
    assert_eq!(result.errors.len(), 2);
    assert_eq!(result.tokens.len(), 3);
    assert!(matches!(result.errors[0].error_type, HtmlParseErrorType::UnexpectedCharacter('1')));
    assert!(matches!(result.errors[1].error_type, HtmlParseErrorType::UnexpectedCharacter('1')));
    assert!(matches!(&result.tokens[0], HtmlToken::Text { content, .. } if content == "<123>"));
    assert!(matches!(&result.tokens[1], HtmlToken::Comment { content, .. } if content == "123"));
    assert!(result.tokens[2].is_eof());
}

#[test]
fn comment_becomes_a_comment_node() {
    for mode in [ParseMode::Synchronous, ParseMode::Speculative] {
        let res = parse_html_input("<!-- c -->", mode);
        assert_eq!(res.errors.len(), 0);
        assert_eq!(res.tree.nodes.len(), 1);
        match &res.tree.nodes[0] {
            HtmlNode::Comment(comment) => {
                assert_eq!(comment.content, " c ");
                assert_eq!(comment.span.start, [1, 1]);
                assert_eq!(comment.span.end, [1, 11]);
            }
            other => panic!("not a comment: {:?}", other),
        }
    }
}

fn chain(doc: &mut HtmlDocument) -> (ElementRef, ElementRef, ElementRef) {
    let div = ElementRef::new(doc, "div");
    div.add_class(doc, "container");
    let button = ElementRef::new(doc, "button");
    button.set_attribute(doc, "id", "button-1");
    button.add_class(doc, "bg-transparent");
    let span = ElementRef::new(doc, "span");
    span.add_class(doc, "text-red-500");
    span.set_attribute(doc, "title", "Click Me!");
    div.append(doc, &button);
    button.append(doc, &span);
    (div, button, span)
}

#[test]
fn descendant_selector_matches_the_span() {
    let mut doc = HtmlDocument::new();
    let (_, _, span) = chain(&mut doc);
    assert!(span.matches(&doc, "#button-1 .text-red-500[title]"));
    assert!(!span.matches(&doc, "#button-2 .text-red-500[title]"));
    assert!(!span.matches(&doc, "#button-1 .text-red-500[href]"));
}

#[test]
fn child_selector_matches_the_button_only() {
    let mut doc = HtmlDocument::new();
    let (div, button, span) = chain(&mut doc);
    assert!(button.matches(&doc, "div > button"));
    assert!(!span.matches(&doc, "div > button"));
    assert!(!div.matches(&doc, "div > button"));
    // A grandchild is no child.
    assert!(!span.matches(&doc, "div > span"));
    assert!(span.matches(&doc, "div span"));
}

#[test]
fn two_ids_are_rejected() {
    assert!(matches!(parse_selector("#a#b"), Err(SelectorError::MultipleIds)));
    assert!(matches!(parse_selector("#a#a"), Err(SelectorError::MultipleIds)));
    assert!(matches!(parse_selector("div #a.b#c"), Err(SelectorError::MultipleIds)));
    // Each of two related selectors may have an id of its own.
    assert!(parse_selector("#a #b").is_ok());
    assert!(parse_selector("#a > #b").is_ok());
    assert!(parse_selector("#a, #b").is_ok());
}

#[test]
fn doctype_is_a_node_at_the_root() {
    for mode in [ParseMode::Synchronous, ParseMode::Speculative] {
        let res = parse_html_input("<!DOCTYPE html><p>x</p>", mode);
        assert_eq!(res.errors.len(), 0, "{:?}", res.errors);
        assert_eq!(res.tree.nodes.len(), 2);
        match &res.tree.nodes[0] {
            HtmlNode::DocType(doc) => {
                assert_eq!(doc.doctype.name, "html");
                assert_eq!(doc.doctype.identifier, None);
                assert!(!doc.doctype.force_quirks);
            }
            other => panic!("not a doctype: {:?}", other),
        }
    }
    let quirks = tokenize_html("<!doctype>");
    assert!(matches!(
        &quirks.tokens[0],
        HtmlToken::DocType { root, identifier: None, force_quirks: true } if root.is_empty()
    ));
    let public = tokenize_html("<!DOCTYPE html PUBLIC>");
    assert!(matches!(
        &public.tokens[0],
        HtmlToken::DocType { identifier: Some(DocTypeIdentifier::Public), force_quirks: false, .. }
    ));
    let system = tokenize_html("<!DOCTYPE html system>");
    assert!(matches!(
        &system.tokens[0],
        HtmlToken::DocType { identifier: Some(DocTypeIdentifier::System), .. }
    ));
}
