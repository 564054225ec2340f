use sleek::html::{accepts_file, file_extension, parse_html_input, ParseMode};
use sleek::parse::HtmlParser;
use sleek::parser::speculative::{HtmlParseResult, Parser, ParserResponse};
use sleek::tag::HtmlTag;
use sleek::tokenize::{tokenize_html, HtmlTokenizer};

#[test]
fn it_parses_html() {
    let input = "<html lang=en>This is valid html.</html>";
    let HtmlParseResult { tree, errors } = parse_html_input(input, ParseMode::Synchronous);
    assert_eq!(tree.query_selector("html"), tree.children().first().cloned());
    assert_eq!(errors.len(), 0);
}

#[test]
fn it_parses_html_with_children() {
    let HtmlParseResult { tree, errors } = parse_html_input(
        "<html lang=\"en\">
                    <head>
                        <title>Document</title>
                    </head>
                    <body>
                        <section>
                            <h1>Hello, World!</h1>
                            <p>This is a document section.</p>
                        </section>
                    </body>
                </html>",
        ParseMode::Synchronous,
    );

    assert_eq!(tree.nodes.len(), 1);

    assert_eq!(
        tree.query_selector("title").unwrap().get_text_content(&tree),
        "Document"
    );
    assert_eq!(errors.len(), 0, "Errors encountered: {:?}", errors);
}

#[test]
fn it_parses_elements_speculatively() {
    let res = parse_html_input(
        "<div><input/><div><span></span></div></div>",
        ParseMode::Speculative,
    );

    assert_eq!(res.errors.len(), 0, "Errors encountered: {:?}", res.errors)
}

#[test]
fn it_parses_elements_with_text_speculatively() {
    let res = parse_html_input(
        "<html>
                <head></head>
                <body>
                    <p>This is inner text.</p>
                </body>
            </html>",
        ParseMode::Speculative,
    );
    assert_eq!(
        res.tree.children().first().unwrap().get_text_content(&res.tree),
        "This is inner text."
    );

    assert_eq!(res.errors.len(), 0, "Errors encountered: {:?}", res.errors)
}

#[test]
fn it_finds_unclosed_tags_speculatively() {
    let res = parse_html_input(
        "<div>
        <button type=button>
        <p> Hello world! </p>
        </div>",
        ParseMode::Speculative,
    );
    assert_eq!(res.errors.len(), 2, "Errors encountered: {:?}", res.errors)
}

#[test]
fn files_are_told_by_their_extension() {
    for address in ["a.html", "a.htm", "dir.d/a.xhtml", "a.b.dhtml", ".html"] {
        assert!(accepts_file(address), "{:?}", address);
    }
    for address in ["a.txt", "html", "a.html.bak", "a.", "", "a.HTML", "a.htmlx"] {
        assert!(!accepts_file(address), "{:?}", address);
    }
    assert_eq!(file_extension("a.b.c"), Some("c".to_string()));
    assert_eq!(file_extension("abc"), None);
    assert_eq!(file_extension("abc."), Some(String::new()));
}

#[test]
fn builder_asks_for_scripts_and_style_sheets() {
    let mut builder = Parser::new();
    let mut responses = vec![];
    for token in tokenize_html("<p><script>x</script><STYLE></style>text</p><!-- c -->").tokens {
        responses.push(builder.receive(token));
    }
    assert_eq!(
        responses,
        vec![
            ParserResponse::Continue,
            ParserResponse::SwitchToScript,
            ParserResponse::Continue,
            ParserResponse::Continue,
            ParserResponse::SwitchToStyleSheet,
            ParserResponse::Continue,
            ParserResponse::Continue,
            ParserResponse::Continue,
            ParserResponse::Continue,
            ParserResponse::Continue,
        ]
    );
    let result = builder.finish(vec![]);
    assert_eq!(result.errors.len(), 0);
    assert_eq!(result.tree.nodes.len(), 2);
    assert_eq!(result.tree.elements.len(), 3);
    let p = result.tree.children()[0];
    assert_eq!(p.get_text_content(&result.tree), "xtext");
}

#[test]
fn tokens_can_be_parsed_later() {
    let tokenized = tokenize_html("<ul><li>a<li>b</ul>");
    assert_eq!(tokenized.errors.len(), 0);
    let result = HtmlParser::parse(tokenized);
    // The second item stands in the first, and the list is closed by no tag.
    assert_eq!(result.errors.len(), 2);
    let ul = result.tree.children()[0];
    assert_eq!(ul.children(&result.tree).len(), 1);
    assert_eq!(ul.get_text_content(&result.tree), "ab");
    assert_eq!(result.tree.query_selector_all("ul > li > li").len(), 1);
    assert_eq!(result.tree.get_elements_by_tag_name(&HtmlTag::Li).len(), 2);

    let result = HtmlParser::parse(HtmlTokenizer { tokens: vec![], errors: vec![] });
    assert_eq!(result.tree.nodes.len(), 0);
    assert_eq!(result.errors.len(), 0);
}
