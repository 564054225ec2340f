use sleek::element::ElementRef;
use sleek::html::{parse_html_input, ParseMode};
use sleek::selector::parser::{parse_selector, SelectorError};
use sleek::text::split_words;
use sleek::token::HtmlToken;
use sleek::tokenize::tokenize_html;
use sleek::tree::HtmlDocument;

#[test]
fn class_list_is_the_words_of_the_class_attribute() {
    let mut doc = HtmlDocument::new();
    let e = ElementRef::new(&mut doc, "div");
    for value in ["box blue", "  a\tb\n c  ", "", "   ", "one", "x\u{a0}y z"] {
        e.set_attribute(&mut doc, "class", value);
        let expected: Vec<&str> = value.split_ascii_whitespace().collect();
        assert_eq!(e.class_list(&doc), &expected, "{:?}", value);
        assert_eq!(split_words(value), expected);
    }
}

#[test]
fn classes_and_class_attribute_stay_in_line() {
    let mut doc = HtmlDocument::new();
    let e = ElementRef::new(&mut doc, "div");
    e.add_class(&mut doc, "a");
    e.add_class(&mut doc, "b");
    e.add_class(&mut doc, "a");
    assert_eq!(e.class_list(&doc), &["a", "b", "a"]);
    assert_eq!(e.get_attribute(&doc, "class"), Some(&"a b a".to_string()));
    assert_eq!(e.class_name(&doc), "a b a");
    e.remove_class(&mut doc, "a");
    assert_eq!(e.class_list(&doc), &["b"]);
    assert_eq!(e.get_attribute(&doc, "class"), Some(&"b".to_string()));
    e.remove_attribute(&mut doc, "class");
    assert_eq!(e.class_list(&doc).len(), 0);
    assert_eq!(e.get_attribute(&doc, "class"), None);
    // Without a class attribute there is nothing to remove.
    e.remove_class(&mut doc, "b");
    assert_eq!(e.get_attribute(&doc, "class"), None);
}

#[test]
fn append_then_remove_leaves_the_children() {
    let mut doc = HtmlDocument::new();
    let p = ElementRef::new(&mut doc, "ul");
    let a = ElementRef::new(&mut doc, "li");
    let b = ElementRef::new(&mut doc, "li");
    let c = ElementRef::new(&mut doc, "li");
    p.append(&mut doc, &a);
    p.append(&mut doc, &b);
    let before = p.children(&doc);
    p.append(&mut doc, &c);
    assert_eq!(p.children(&doc), vec![a, b, c]);
    assert_eq!(c.parent(&doc), Some(p));
    p.remove(&mut doc, &c);
    assert_eq!(p.children(&doc), before);
    assert_eq!(c.parent(&doc), None);
}

#[test]
fn an_element_has_one_place() {
    let mut doc = HtmlDocument::new();
    let p = ElementRef::new(&mut doc, "div");
    let q = ElementRef::new(&mut doc, "div");
    let c = ElementRef::new(&mut doc, "span");
    p.append(&mut doc, &c);
    // Appending it elsewhere moves it.
    q.append(&mut doc, &c);
    assert_eq!(p.children(&doc).len(), 0);
    assert_eq!(q.children(&doc), vec![c]);
    assert_eq!(c.parent(&doc), Some(q));
    // Appending it once more changes nothing.
    q.append(&mut doc, &c);
    assert_eq!(q.children(&doc), vec![c]);
    // An element cannot be put below itself or below what stands below it.
    c.append(&mut doc, &p);
    assert_eq!(p.parent(&doc), Some(c));
    p.append(&mut doc, &q);
    p.append(&mut doc, &c);
    assert_eq!(q.parent(&doc), None);
    assert_eq!(c.parent(&doc), Some(q));
    q.append(&mut doc, &q);
    assert_eq!(q.parent(&doc), None);
    assert_eq!(q.children(&doc), vec![c]);
    assert_eq!(c.children(&doc), vec![p]);
    // Removing from an element that is not the parent does nothing.
    p.remove(&mut doc, &c);
    assert_eq!(c.parent(&doc), Some(q));
}

#[test]
fn prepend_and_after_place_the_element() {
    let mut doc = HtmlDocument::new();
    let p = ElementRef::new(&mut doc, "ol");
    let a = ElementRef::new(&mut doc, "li");
    let b = ElementRef::new(&mut doc, "li");
    let c = ElementRef::new(&mut doc, "li");
    p.append(&mut doc, &a);
    p.prepend(&mut doc, &b);
    assert_eq!(p.children(&doc), vec![b, a]);
    b.after(&mut doc, &c);
    assert_eq!(p.children(&doc), vec![b, c, a]);
    assert_eq!(p.get_index_of(&doc, &c), Some(1));
    assert_eq!(c.parent(&doc), Some(p));
    // Moving within the same parent.
    a.after(&mut doc, &b);
    assert_eq!(p.children(&doc), vec![c, a, b]);
    // An element without a parent has no place to put another after it.
    p.after(&mut doc, &c);
    assert_eq!(p.children(&doc), vec![c, a, b]);
    assert_eq!(p.get_index_of(&doc, &p), None);
}

#[test]
fn contains_follows_the_children() {
    let mut doc = HtmlDocument::new();
    let a = ElementRef::new(&mut doc, "a");
    let b = ElementRef::new(&mut doc, "b");
    let c = ElementRef::new(&mut doc, "c");
    let d = ElementRef::new(&mut doc, "d");
    a.append(&mut doc, &b);
    b.append(&mut doc, &c);
    assert!(a.contains(&doc, &b));
    assert!(a.contains(&doc, &c));
    assert!(b.contains(&doc, &c));
    assert!(!a.contains(&doc, &a));
    assert!(!c.contains(&doc, &a));
    assert!(!a.contains(&doc, &d));
    assert!(!doc.contains(&c));
    doc.append(&a);
    assert!(doc.contains(&c));
    assert!(doc.contains(&a));
    assert!(!doc.contains(&d));
    doc.remove(&a);
    assert!(!doc.contains(&c));
}

#[test]
fn queries_go_by_document_order() {
    let res = parse_html_input(
        "<div id=a><p class=x id=b><span class=x id=c></span></p><p class=x id=d></p></div><p id=e class='y x'></p>",
        ParseMode::Synchronous,
    );
    assert_eq!(res.errors.len(), 0, "{:?}", res.errors);
    let tree = &res.tree;
    let ids = |found: Vec<ElementRef>| -> Vec<String> {
        found.iter().map(|e| e.id(tree).unwrap().clone()).collect()
    };
    assert_eq!(ids(tree.query_selector_all(".x")), ["b", "c", "d", "e"]);
    assert_eq!(ids(tree.query_selector_all("p")), ["b", "d", "e"]);
    assert_eq!(ids(tree.query_selector_all("div p")), ["b", "d"]);
    assert_eq!(ids(tree.query_selector_all("div > .x")), ["b", "d"]);
    assert_eq!(ids(tree.query_selector_all("span, #e")), ["c", "e"]);
    assert_eq!(ids(tree.query_selector_all("*")), ["a", "b", "c", "d", "e"]);
    assert_eq!(ids(tree.get_elements_by_class_name("x")), ["b", "c", "d", "e"]);
    assert_eq!(ids(tree.get_elements_by_class_name("y")), ["e"]);
    let first = tree.query_selector(".x").unwrap();
    assert_eq!(first.id(tree).unwrap(), "b");
    let div = tree.get_element_by_id("a").unwrap();
    // An element is not among the elements below it.
    assert_eq!(div.query_selector(tree, "div"), None);
    assert_eq!(ids(div.query_selector_all(tree, ".x")), ["b", "c", "d"]);
    assert_eq!(div.get_element_by_id(tree, "e"), None);
    assert_eq!(div.get_element_by_id(tree, "c").map(|e| e.index), tree.get_element_by_id("c").map(|e| e.index));
    // A string that is no selector selects nothing.
    assert_eq!(tree.query_selector("p >"), None);
    assert_eq!(tree.query_selector_all("").len(), 0);
    assert!(!div.matches(tree, "1div"));
}

#[test]
fn every_input_ends_with_the_end_token() {
    for input in [
        "", "<", "<$", "</", "</1", "<a =x", "<a b=>", "<a b='", "<!", "<!-", "<!--", "<!d", "<!doctype",
        "<!doctype >", "<a/ b>", "<a / >", "a<b", "<<<<", ">>", "<a\u{a0}b>", "<a b=\"c\"d>", "<-->",
        "<!doctype html s", "<a b = c>", "</a b>", "<a b=c/>",
    ] {
        let res = tokenize_html(input);
        assert!(res.tokens.last().unwrap().is_eof(), "{:?}", input);
        let ends = res.tokens.iter().filter(|token| token.is_eof()).count();
        assert_eq!(ends, 1, "{:?}", input);
        for mode in [ParseMode::Synchronous, ParseMode::Speculative] {
            parse_html_input(input, mode);
        }
    }
}

#[test]
fn spans_say_where_the_tokens_stand() {
    let res = tokenize_html("<p>Hi</p>\n<!--x-->");
    assert_eq!(res.errors.len(), 0);
    assert_eq!(res.tokens.len(), 5);
    match &res.tokens[0] {
        HtmlToken::OpeningTag { span, .. } => {
            assert_eq!((span.start, span.end), ([1, 1], [1, 4]));
        }
        other => panic!("{:?}", other),
    }
    match &res.tokens[1] {
        HtmlToken::Text { content, span } => {
            assert_eq!(content, "Hi");
            assert_eq!((span.start, span.end), ([1, 4], [1, 6]));
        }
        other => panic!("{:?}", other),
    }
    match &res.tokens[2] {
        HtmlToken::ClosingTag { span, .. } => {
            assert_eq!((span.start, span.end), ([1, 6], [1, 10]));
        }
        other => panic!("{:?}", other),
    }
    match &res.tokens[3] {
        HtmlToken::Comment { content, span } => {
            assert_eq!(content, "x");
            assert_eq!((span.start, span.end), ([2, 1], [2, 9]));
        }
        other => panic!("{:?}", other),
    }
    match &res.tokens[4] {
        HtmlToken::EOF { location } => assert_eq!(*location, [2, 9]),
        other => panic!("{:?}", other),
    }
}

#[test]
fn well_formed_inputs_have_no_diagnostics() {
    for input in [
        "",
        "plain text",
        "<p></p>",
        "<a href='x' class=\"y z\" hidden>text<br><img src=a.png/></a>",
        "<!DOCTYPE html>\n<html>\n<head><title>t</title></head>\n<body><!-- c --><h1 id=top>Hi</h1></body>\n</html>\n",
        "<ul><li>1</li><li>2</li></ul><hr>",
    ] {
        for mode in [ParseMode::Synchronous, ParseMode::Speculative] {
            let res = parse_html_input(input, mode);
            assert_eq!(res.errors.len(), 0, "{:?}: {:?}", input, res.errors);
        }
    }
}

#[test]
fn both_modes_build_the_same_tree() {
    let input = "<div class=a><p>one<b>two</b></p><input><!-- c --></div><script>x</script>";
    let sync = parse_html_input(input, ParseMode::Synchronous);
    let spec = parse_html_input(input, ParseMode::Speculative);
    assert_eq!(format!("{:?}", sync.tree.nodes), format!("{:?}", spec.tree.nodes));
    assert_eq!(sync.tree.elements.len(), spec.tree.elements.len());
    assert_eq!(sync.errors.len(), 0);
    assert_eq!(spec.errors.len(), 0);
    let div = sync.tree.children()[0];
    assert_eq!(div.get_text_content(&sync.tree), "onetwo");
    let script = sync.tree.children()[1];
    assert_eq!(script.get_text_content(&sync.tree), "x");
}

#[test]
fn selector_errors_say_what_is_wrong() {
    assert!(matches!(parse_selector(""), Err(SelectorError::EmptySelector)));
    assert!(matches!(parse_selector("   "), Err(SelectorError::EmptySelector)));
    assert!(matches!(parse_selector("1a"), Err(SelectorError::InvalidTag)));
    assert!(matches!(parse_selector("div 2"), Err(SelectorError::InvalidTag)));
    for text in ["a >", "a,", ", a", "a,,b", ".", "#", "[", "[a", "[a=", "[a='b]", "a!", "a:hover", "a + b", "a ~ b", "[a]b", "[a=<]", "[a=b c]", "*a", "[a b]", "[a= 'b' ]", "div>p"] {
        assert!(matches!(parse_selector(text), Err(SelectorError::InvalidSelector)), "{:?}", text);
    }
    for text in ["a", "A", "a.b#c[d][e=f][g='h i'][j=\"k\"]", "* > a", "a , b", "a,b", "[a]>b", "[a=b]", "[a='b' ]", "[a=]", "a\n\tb", "-a_b-1"] {
        assert!(parse_selector(text).is_ok(), "{:?}", text);
    }
}
