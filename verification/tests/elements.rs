use sleek::element::ElementRef;
use sleek::tag::HtmlTag as Tag;
use sleek::tree::HtmlDocument;

#[test]
fn it_parses_class_selector() {
    let mut doc = HtmlDocument::new();
    let aside = ElementRef::new(&mut doc, "aside");
    aside.add_class(&mut doc, "sidebar");
    aside.add_class(&mut doc, "scrollable");
    aside.add_class(&mut doc, "blue-bg");
    assert!(aside.matches(&doc, ".sidebar"));
    assert!(aside.matches(&doc, ".sidebar.scrollable"));
    assert!(aside.matches(&doc, ".sidebar.blue-bg.scrollable"))
}

#[test]
fn it_parses_id_and_class_selector() {
    let mut doc = HtmlDocument::new();
    let para = ElementRef::new(&mut doc, "p");
    para.set_attribute(&mut doc, "id", "paragraph-1");
    para.add_class(&mut doc, "paragraph");
    assert!(para.matches(&doc, "#paragraph-1.paragraph"));
    assert!(para.matches(&doc, ".paragraph#paragraph-1"))
}

#[test]
fn it_parses_tag_selector() {
    let mut doc = HtmlDocument::new();
    let div = ElementRef::new(&mut doc, "div");
    div.add_class(&mut doc, "box");
    div.set_attribute(&mut doc, "id", "box-1");

    assert!(div.matches(&doc, "div"));
    assert!(div.matches(&doc, "div.box"));
    assert!(div.matches(&doc, "div#box-1"));
    assert!(div.matches(&doc, "div.box#box-1"));
}

#[test]
fn it_parses_attributes() {
    let mut doc = HtmlDocument::new();
    let button = ElementRef::new(&mut doc, "button");
    button.add_class(&mut doc, "clickable");
    button.set_attribute(&mut doc, "title", "Click Me");
    button.set_attribute(&mut doc, "style", "background-color: blue;");
    button.set_attribute(&mut doc, "darkmode", "");

    assert!(button.matches(&doc, "button.clickable[darkmode]"));
    assert!(button.matches(&doc, "[style]"));
    assert!(button.matches(&doc, "[title=\"Click Me\"]"))
}

#[test]
fn it_parses_descendants() {
    let mut doc = HtmlDocument::new();
    let div = ElementRef::new(&mut doc, "div");
    div.add_class(&mut doc, "container");

    let button = ElementRef::new(&mut doc, "button");
    button.set_attribute(&mut doc, "id", "button-1");
    button.add_class(&mut doc, "bg-transparent");

    let span = ElementRef::new(&mut doc, "span");
    span.add_class(&mut doc, "text-red-500");
    span.set_attribute(&mut doc, "title", "Click Me!");

    div.append(&mut doc, &button);
    button.append(&mut doc, &span);

    assert!(span.matches(&doc, "div button span"));
    assert!(span.matches(&doc, ".container .bg-transparent .text-red-500"));
    assert!(span.matches(&doc, "div [title]"));
    assert!(span.matches(&doc, "#button-1 .text-red-500[title]"));
}

#[test]
fn it_parses_nuclear_relations() {
    let mut doc = HtmlDocument::new();
    let html = ElementRef::new(&mut doc, "html");
    let head = ElementRef::new(&mut doc, "head");
    let title = ElementRef::new(&mut doc, "title");

    html.append(&mut doc, &head);
    head.append(&mut doc, &title);

    assert!(title.matches(&doc, "head > title"));
    assert!(title.matches(&doc, "html > head > title"));
}

#[test]
fn it_tests_universal_selector() {
    let mut doc = HtmlDocument::new();
    let ul = ElementRef::new(&mut doc, "ul");
    ul.add_class(&mut doc, "list");

    let item = ElementRef::new(&mut doc, "list");
    ul.append(&mut doc, &item);
    item.add_class(&mut doc, "list-item");

    let p = ElementRef::new(&mut doc, "p");
    item.append(&mut doc, &p);

    assert!(p.matches(&doc, "*"));
    assert!(p.matches(&doc, "* *"));
    assert!(p.matches(&doc, "* * *"));
    assert!(p.matches(&doc, "* p"));
    assert!(p.matches(&doc, ".list  *"));
    assert!(p.matches(&doc, "* > p"));
    assert!(p.matches(&doc, "* > [class] > p"));
}

#[test]
fn it_tests_element_nesting() {
    let mut doc = HtmlDocument::new();
    let ref_1 = ElementRef::from(&mut doc, Tag::Div);
    let ref_2 = ElementRef::from(&mut doc, Tag::Body);
    ref_2.append(&mut doc, &ref_1);

    let ref_3 = ElementRef::from(&mut doc, Tag::Html);
    ref_3.append(&mut doc, &ref_2);

    let ref_4 = ElementRef::from(&mut doc, Tag::Head);

    assert!(ref_3.contains(&doc, &ref_1));
    ref_3.append(&mut doc, &ref_4);
}

#[test]
fn it_updates_class_list() {
    let mut doc = HtmlDocument::new();
    let ref_1 = ElementRef::from(&mut doc, Tag::Div);
    ref_1.set_attribute(&mut doc, "class", "box blue");
    assert_eq!(ref_1.class_list(&doc), &["box", "blue"])
}

#[test]
fn it_queries_matching() {
    let mut doc = HtmlDocument::new();
    let div = ElementRef::from(&mut doc, Tag::Div);
    let child_2 = ElementRef::from(&mut doc, Tag::Div);
    let child_3 = ElementRef::from(&mut doc, Tag::A);

    div.append(&mut doc, &child_2);
    div.append(&mut doc, &child_3);

    child_3.set_attribute(&mut doc, "class", "box");
    child_2.set_attribute(&mut doc, "id", "inner-circle");

    assert_eq!(div.get_elements_by_class_name(&doc, "box")[0], child_3);
    assert_eq!(div.get_element_by_id(&doc, "inner-circle"), Some(child_2));
    assert_eq!(div.get_elements_by_tag_name(&doc, &Tag::A)[0], child_3);
}

#[test]
fn it_adds_element_after() {
    let mut doc = HtmlDocument::new();
    let div = ElementRef::from(&mut doc, Tag::Div);
    let child_1 = ElementRef::from(&mut doc, Tag::Div);
    let child_2 = ElementRef::from(&mut doc, Tag::Div);

    div.append(&mut doc, &child_1);
    child_1.after(&mut doc, &child_2);

    assert_eq!(div.children(&doc).len(), 2);
}

#[test]
fn it_tests_element_removal() {
    let mut doc = HtmlDocument::new();
    let node = ElementRef::from(&mut doc, Tag::Div);
    let body = ElementRef::from(&mut doc, Tag::Body);

    body.append(&mut doc, &node);

    body.remove(&mut doc, &node);

    assert_eq!(node.parent(&doc), None);
    assert_eq!(body.children(&doc).len(), 0);
}

#[test]
fn it_tests_element_ref_equality() {
    let mut doc = HtmlDocument::new();
    let ref_1 = ElementRef::new(&mut doc, "hello");
    let ref_2 = ref_1.clone();
    assert_eq!(ref_1, ref_2);
}

#[test]
fn it_tests_query_selection() {
    let mut doc = HtmlDocument::new();
    let div = ElementRef::new(&mut doc, "div");
    let span = ElementRef::new(&mut doc, "a");
    let a = ElementRef::new(&mut doc, "a");
    div.append(&mut doc, &span);
    span.append(&mut doc, &a);

    span.add_class(&mut doc, "text-link");
    a.set_attribute(&mut doc, "href", "http://example.com");

    assert_eq!(div.query_selector(&doc, ".text-link"), Some(span));
    assert_eq!(div.query_selector(&doc, "[href]"), Some(a));
}
