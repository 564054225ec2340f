use sleek::error::HtmlParseErrorType as Kind;
use sleek::html::{parse_html_input, ParseMode};
use sleek::tag::HtmlTag;
use sleek::token::HtmlToken;
use sleek::tokenize::tokenize_html;

#[test]
fn null_character_is_invalid() {
    let res = tokenize_html("a\0b");
    assert_eq!(res.errors.len(), 1);
    assert!(matches!(res.errors[0].error_type, Kind::InvalidCharacter));
    assert_eq!(res.errors[0].location, [1, 3]);
    // The text before the null character and the text after it.
    assert_eq!(res.tokens.len(), 3);
    assert!(matches!(&res.tokens[0], HtmlToken::Text { content, .. } if content == "a"));
    assert!(matches!(&res.tokens[1], HtmlToken::Text { content, .. } if content == "b"));
}

#[test]
fn end_of_input_in_a_tag_is_recorded() {
    for input in ["<", "<div", "<div ", "<div a", "<div a=", "<div a='x", "</", "</div", "<div/"] {
        let res = tokenize_html(input);
        assert!(
            res.errors
                .iter()
                .any(|error| matches!(error.error_type, Kind::UnexpectedEndOfInput)),
            "{:?}: {:?}",
            input,
            res.errors
        );
        assert!(res.tokens.last().unwrap().is_eof());
    }
}

#[test]
fn stray_characters_are_unexpected() {
    let res = tokenize_html("<>");
    assert_eq!(res.errors.len(), 1);
    assert!(matches!(res.errors[0].error_type, Kind::UnexpectedCharacter('>')));
    assert!(matches!(&res.tokens[0], HtmlToken::Text { content, .. } if content == "<>"));

    let res = tokenize_html("< a");
    assert!(matches!(res.errors[0].error_type, Kind::UnexpectedCharacter(' ')));
    assert!(matches!(&res.tokens[0], HtmlToken::Text { content, .. } if content == "< a"));

    let res = tokenize_html("<$x");
    assert_eq!(res.errors.len(), 1);
    assert!(matches!(res.errors[0].error_type, Kind::UnexpectedCharacter('$')));
    assert!(matches!(&res.tokens[0], HtmlToken::Text { content, .. } if content == "<$x"));
    assert_eq!(res.tokens.len(), 2);
}

#[test]
fn closing_tag_needs_a_name() {
    let res = tokenize_html("</>");
    assert_eq!(res.errors.len(), 1);
    assert!(matches!(res.errors[0].error_type, Kind::ExpectedTagName));
    assert_eq!(res.tokens.len(), 1);

    let res = tokenize_html("</ p>");
    assert!(matches!(res.errors[0].error_type, Kind::ExpectedTagName));
}

#[test]
fn unclosed_comment_is_recorded_and_kept() {
    let res = tokenize_html("<!-- never closed --");
    assert_eq!(res.errors.len(), 1);
    assert!(matches!(res.errors[0].error_type, Kind::UnclosedComment));
    assert!(
        matches!(&res.tokens[0], HtmlToken::Comment { content, .. } if content == " never closed --")
    );
}

#[test]
fn unknown_doctype_identifier_is_indecipherable() {
    let res = tokenize_html("<!DOCTYPE html banana>text");
    assert_eq!(res.errors.len(), 1);
    assert!(matches!(res.errors[0].error_type, Kind::IndecipherableDocType));
    assert_eq!(res.tokens.len(), 3);
    assert!(matches!(&res.tokens[1], HtmlToken::Text { content, .. } if content == "text"));

    let res = tokenize_html("<!DOCTYPE html pubxic>");
    assert!(matches!(res.errors[0].error_type, Kind::IndecipherableDocType));
}

#[test]
fn end_tag_of_a_void_element_is_recorded() {
    for mode in [ParseMode::Synchronous, ParseMode::Speculative] {
        let res = parse_html_input("<p>a<br>b</br></p>", mode);
        assert_eq!(res.errors.len(), 1, "{:?}", res.errors);
        assert!(matches!(&res.errors[0].error_type, Kind::VoidElementEndTag(HtmlTag::Br)));
        assert_eq!(res.errors[0].location, [1, 10]);
        let p = res.tree.children()[0];
        assert_eq!(p.get_text_content(&res.tree), "ab");
        // The void element has no children, and the paragraph was closed.
        let br = p.children(&res.tree)[0];
        assert!(!br.has_children(&res.tree));
    }
}

#[test]
fn unclosed_tag_is_recorded_once() {
    let res = parse_html_input("<div><p>", ParseMode::Synchronous);
    assert_eq!(res.errors.len(), 1);
    assert!(matches!(&res.errors[0].error_type, Kind::UnclosedTag(HtmlTag::P)));
    // At the end of the input.
    assert_eq!(res.errors[0].location, [1, 9]);

    let res = parse_html_input("<div><p>", ParseMode::Speculative);
    assert_eq!(res.errors.len(), 1);
    assert!(matches!(&res.errors[0].error_type, Kind::UnclosedTag(HtmlTag::P)));
    // At the end of the opening tag.
    assert_eq!(res.errors[0].location, [1, 9]);

    let res = parse_html_input("<div><p>text", ParseMode::Speculative);
    assert_eq!(res.errors[0].location, [1, 9]);
    let res = parse_html_input("<div><p>text", ParseMode::Synchronous);
    assert_eq!(res.errors[0].location, [1, 13]);
}

#[test]
fn stray_close_tag_is_recorded_and_dropped() {
    for mode in [ParseMode::Synchronous, ParseMode::Speculative] {
        let res = parse_html_input("</div><p>x</span></p>", mode);
        assert_eq!(res.errors.len(), 2);
        assert!(matches!(&res.errors[0].error_type, Kind::UnexpectedCloseTag(HtmlTag::Div)));
        assert_eq!(res.errors[0].location, [1, 1]);
        assert!(matches!(&res.errors[1].error_type, Kind::UnexpectedCloseTag(HtmlTag::Span)));
        assert_eq!(res.tree.children().len(), 1);
    }
}

#[test]
fn tokenizer_errors_come_before_builder_errors() {
    for mode in [ParseMode::Synchronous, ParseMode::Speculative] {
        let res = parse_html_input("</p><>", mode);
        assert_eq!(res.errors.len(), 2);
        assert!(matches!(res.errors[0].error_type, Kind::UnexpectedCharacter('>')));
        assert!(matches!(&res.errors[1].error_type, Kind::UnexpectedCloseTag(HtmlTag::P)));
    }
}
