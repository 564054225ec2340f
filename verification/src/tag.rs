//! Tag names. A tag is known by its lower-case name; the names that occur
//! most often have a variant of their own, so that the kind of an element can
//! be told from its tag alone.
use vstd::prelude::*;
use crate::text::{chars_eq, chars_of, lowercase, lowercase_chars, str_eq, string_of};

verus! {

/// The name of an element. Every variant but `Other` stands for the tag whose
/// lower-case name is the variant's; `Other` holds any further name.
#[derive(Debug, PartialEq, Eq)]
pub enum HtmlTag {
    A,
    Area,
    Base,
    Body,
    Br,
    Button,
    Col,
    Div,
    Embed,
    Form,
    H1,
    Head,
    Hr,
    Html,
    Img,
    Input,
    Li,
    Link,
    Meta,
    P,
    Script,
    Section,
    Source,
    Span,
    Style,
    Table,
    Title,
    Track,
    Ul,
    Wbr,
    Other(String),
}

impl View for HtmlTag {
    type V = Seq<char>;

    /// The tag's name.
    open spec fn view(&self) -> Seq<char> {
        match self {
            HtmlTag::A => "a"@,
            HtmlTag::Area => "area"@,
            HtmlTag::Base => "base"@,
            HtmlTag::Body => "body"@,
            HtmlTag::Br => "br"@,
            HtmlTag::Button => "button"@,
            HtmlTag::Col => "col"@,
            HtmlTag::Div => "div"@,
            HtmlTag::Embed => "embed"@,
            HtmlTag::Form => "form"@,
            HtmlTag::H1 => "h1"@,
            HtmlTag::Head => "head"@,
            HtmlTag::Hr => "hr"@,
            HtmlTag::Html => "html"@,
            HtmlTag::Img => "img"@,
            HtmlTag::Input => "input"@,
            HtmlTag::Li => "li"@,
            HtmlTag::Link => "link"@,
            HtmlTag::Meta => "meta"@,
            HtmlTag::P => "p"@,
            HtmlTag::Script => "script"@,
            HtmlTag::Section => "section"@,
            HtmlTag::Source => "source"@,
            HtmlTag::Span => "span"@,
            HtmlTag::Style => "style"@,
            HtmlTag::Table => "table"@,
            HtmlTag::Title => "title"@,
            HtmlTag::Track => "track"@,
            HtmlTag::Ul => "ul"@,
            HtmlTag::Wbr => "wbr"@,
            HtmlTag::Other(s) => s@,
        }
    }
}

/// Whether `name` is one of the names that have a variant of their own.
pub open spec fn is_known_name(name: Seq<char>) -> bool {
    ||| name == "a"@
    ||| name == "area"@
    ||| name == "base"@
    ||| name == "body"@
    ||| name == "br"@
    ||| name == "button"@
    ||| name == "col"@
    ||| name == "div"@
    ||| name == "embed"@
    ||| name == "form"@
    ||| name == "h1"@
    ||| name == "head"@
    ||| name == "hr"@
    ||| name == "html"@
    ||| name == "img"@
    ||| name == "input"@
    ||| name == "li"@
    ||| name == "link"@
    ||| name == "meta"@
    ||| name == "p"@
    ||| name == "script"@
    ||| name == "section"@
    ||| name == "source"@
    ||| name == "span"@
    ||| name == "style"@
    ||| name == "table"@
    ||| name == "title"@
    ||| name == "track"@
    ||| name == "ul"@
    ||| name == "wbr"@
}

/// Whether `name` names a void element: one that never has content and has
/// no end tag.
pub open spec fn is_void_name(name: Seq<char>) -> bool {
    ||| name == "area"@
    ||| name == "base"@
    ||| name == "br"@
    ||| name == "col"@
    ||| name == "embed"@
    ||| name == "hr"@
    ||| name == "img"@
    ||| name == "input"@
    ||| name == "link"@
    ||| name == "meta"@
    ||| name == "source"@
    ||| name == "track"@
    ||| name == "wbr"@
}

/// The names that have a variant of their own, letter by letter. Any two of
/// them differ, and so the name of a variant tells which variant it is.
pub proof fn lemma_known_names()
    ensures
        "a"@.len() == 1,
        "a"@[0] == 'a',
        "area"@.len() == 4,
        "area"@[0] == 'a',
        "area"@[1] == 'r',
        "area"@[2] == 'e',
        "area"@[3] == 'a',
        "base"@.len() == 4,
        "base"@[0] == 'b',
        "base"@[1] == 'a',
        "base"@[2] == 's',
        "base"@[3] == 'e',
        "body"@.len() == 4,
        "body"@[0] == 'b',
        "body"@[1] == 'o',
        "body"@[2] == 'd',
        "body"@[3] == 'y',
        "br"@.len() == 2,
        "br"@[0] == 'b',
        "br"@[1] == 'r',
        "button"@.len() == 6,
        "button"@[0] == 'b',
        "button"@[1] == 'u',
        "button"@[2] == 't',
        "button"@[3] == 't',
        "button"@[4] == 'o',
        "button"@[5] == 'n',
        "col"@.len() == 3,
        "col"@[0] == 'c',
        "col"@[1] == 'o',
        "col"@[2] == 'l',
        "div"@.len() == 3,
        "div"@[0] == 'd',
        "div"@[1] == 'i',
        "div"@[2] == 'v',
        "embed"@.len() == 5,
        "embed"@[0] == 'e',
        "embed"@[1] == 'm',
        "embed"@[2] == 'b',
        "embed"@[3] == 'e',
        "embed"@[4] == 'd',
        "form"@.len() == 4,
        "form"@[0] == 'f',
        "form"@[1] == 'o',
        "form"@[2] == 'r',
        "form"@[3] == 'm',
        "h1"@.len() == 2,
        "h1"@[0] == 'h',
        "h1"@[1] == '1',
        "head"@.len() == 4,
        "head"@[0] == 'h',
        "head"@[1] == 'e',
        "head"@[2] == 'a',
        "head"@[3] == 'd',
        "hr"@.len() == 2,
        "hr"@[0] == 'h',
        "hr"@[1] == 'r',
        "html"@.len() == 4,
        "html"@[0] == 'h',
        "html"@[1] == 't',
        "html"@[2] == 'm',
        "html"@[3] == 'l',
        "img"@.len() == 3,
        "img"@[0] == 'i',
        "img"@[1] == 'm',
        "img"@[2] == 'g',
        "input"@.len() == 5,
        "input"@[0] == 'i',
        "input"@[1] == 'n',
        "input"@[2] == 'p',
        "input"@[3] == 'u',
        "input"@[4] == 't',
        "li"@.len() == 2,
        "li"@[0] == 'l',
        "li"@[1] == 'i',
        "link"@.len() == 4,
        "link"@[0] == 'l',
        "link"@[1] == 'i',
        "link"@[2] == 'n',
        "link"@[3] == 'k',
        "meta"@.len() == 4,
        "meta"@[0] == 'm',
        "meta"@[1] == 'e',
        "meta"@[2] == 't',
        "meta"@[3] == 'a',
        "p"@.len() == 1,
        "p"@[0] == 'p',
        "script"@.len() == 6,
        "script"@[0] == 's',
        "script"@[1] == 'c',
        "script"@[2] == 'r',
        "script"@[3] == 'i',
        "script"@[4] == 'p',
        "script"@[5] == 't',
        "section"@.len() == 7,
        "section"@[0] == 's',
        "section"@[1] == 'e',
        "section"@[2] == 'c',
        "section"@[3] == 't',
        "section"@[4] == 'i',
        "section"@[5] == 'o',
        "section"@[6] == 'n',
        "source"@.len() == 6,
        "source"@[0] == 's',
        "source"@[1] == 'o',
        "source"@[2] == 'u',
        "source"@[3] == 'r',
        "source"@[4] == 'c',
        "source"@[5] == 'e',
        "span"@.len() == 4,
        "span"@[0] == 's',
        "span"@[1] == 'p',
        "span"@[2] == 'a',
        "span"@[3] == 'n',
        "style"@.len() == 5,
        "style"@[0] == 's',
        "style"@[1] == 't',
        "style"@[2] == 'y',
        "style"@[3] == 'l',
        "style"@[4] == 'e',
        "table"@.len() == 5,
        "table"@[0] == 't',
        "table"@[1] == 'a',
        "table"@[2] == 'b',
        "table"@[3] == 'l',
        "table"@[4] == 'e',
        "title"@.len() == 5,
        "title"@[0] == 't',
        "title"@[1] == 'i',
        "title"@[2] == 't',
        "title"@[3] == 'l',
        "title"@[4] == 'e',
        "track"@.len() == 5,
        "track"@[0] == 't',
        "track"@[1] == 'r',
        "track"@[2] == 'a',
        "track"@[3] == 'c',
        "track"@[4] == 'k',
        "ul"@.len() == 2,
        "ul"@[0] == 'u',
        "ul"@[1] == 'l',
        "wbr"@.len() == 3,
        "wbr"@[0] == 'w',
        "wbr"@[1] == 'b',
        "wbr"@[2] == 'r',
{
    reveal_strlit("a");
    reveal_strlit("area");
    reveal_strlit("base");
    reveal_strlit("body");
    reveal_strlit("br");
    reveal_strlit("button");
    reveal_strlit("col");
    reveal_strlit("div");
    reveal_strlit("embed");
    reveal_strlit("form");
    reveal_strlit("h1");
    reveal_strlit("head");
    reveal_strlit("hr");
    reveal_strlit("html");
    reveal_strlit("img");
    reveal_strlit("input");
    reveal_strlit("li");
    reveal_strlit("link");
    reveal_strlit("meta");
    reveal_strlit("p");
    reveal_strlit("script");
    reveal_strlit("section");
    reveal_strlit("source");
    reveal_strlit("span");
    reveal_strlit("style");
    reveal_strlit("table");
    reveal_strlit("title");
    reveal_strlit("track");
    reveal_strlit("ul");
    reveal_strlit("wbr");
}

impl HtmlTag {
    /// A tag holds its name in the one form that the name admits: a name
    /// with a variant of its own is never held in `Other`.
    pub open spec fn canonical(&self) -> bool {
        match self {
            HtmlTag::Other(s) => !is_known_name(s@),
            _ => true,
        }
    }

    /// The tag named by `name`, whatever the case of its ASCII letters.
    pub fn new(name: String) -> (tag: HtmlTag)
        ensures
            tag@ == lowercase(name@),
            tag.canonical(),
    {
        let lower = lowercase_chars(name.as_str());
        if chars_eq(&lower, "a") {
            HtmlTag::A
        } else if chars_eq(&lower, "area") {
            HtmlTag::Area
        } else if chars_eq(&lower, "base") {
            HtmlTag::Base
        } else if chars_eq(&lower, "body") {
            HtmlTag::Body
        } else if chars_eq(&lower, "br") {
            HtmlTag::Br
        } else if chars_eq(&lower, "button") {
            HtmlTag::Button
        } else if chars_eq(&lower, "col") {
            HtmlTag::Col
        } else if chars_eq(&lower, "div") {
            HtmlTag::Div
        } else if chars_eq(&lower, "embed") {
            HtmlTag::Embed
        } else if chars_eq(&lower, "form") {
            HtmlTag::Form
        } else if chars_eq(&lower, "h1") {
            HtmlTag::H1
        } else if chars_eq(&lower, "head") {
            HtmlTag::Head
        } else if chars_eq(&lower, "hr") {
            HtmlTag::Hr
        } else if chars_eq(&lower, "html") {
            HtmlTag::Html
        } else if chars_eq(&lower, "img") {
            HtmlTag::Img
        } else if chars_eq(&lower, "input") {
            HtmlTag::Input
        } else if chars_eq(&lower, "li") {
            HtmlTag::Li
        } else if chars_eq(&lower, "link") {
            HtmlTag::Link
        } else if chars_eq(&lower, "meta") {
            HtmlTag::Meta
        } else if chars_eq(&lower, "p") {
            HtmlTag::P
        } else if chars_eq(&lower, "script") {
            HtmlTag::Script
        } else if chars_eq(&lower, "section") {
            HtmlTag::Section
        } else if chars_eq(&lower, "source") {
            HtmlTag::Source
        } else if chars_eq(&lower, "span") {
            HtmlTag::Span
        } else if chars_eq(&lower, "style") {
            HtmlTag::Style
        } else if chars_eq(&lower, "table") {
            HtmlTag::Table
        } else if chars_eq(&lower, "title") {
            HtmlTag::Title
        } else if chars_eq(&lower, "track") {
            HtmlTag::Track
        } else if chars_eq(&lower, "ul") {
            HtmlTag::Ul
        } else if chars_eq(&lower, "wbr") {
            HtmlTag::Wbr
        } else {
            HtmlTag::Other(string_of(&lower))
        }
    }

    /// The tag's name.
    pub fn as_str(&self) -> (name: &str)
        ensures
            name@ == self@,
    {
        match self {
            HtmlTag::A => "a",
            HtmlTag::Area => "area",
            HtmlTag::Base => "base",
            HtmlTag::Body => "body",
            HtmlTag::Br => "br",
            HtmlTag::Button => "button",
            HtmlTag::Col => "col",
            HtmlTag::Div => "div",
            HtmlTag::Embed => "embed",
            HtmlTag::Form => "form",
            HtmlTag::H1 => "h1",
            HtmlTag::Head => "head",
            HtmlTag::Hr => "hr",
            HtmlTag::Html => "html",
            HtmlTag::Img => "img",
            HtmlTag::Input => "input",
            HtmlTag::Li => "li",
            HtmlTag::Link => "link",
            HtmlTag::Meta => "meta",
            HtmlTag::P => "p",
            HtmlTag::Script => "script",
            HtmlTag::Section => "section",
            HtmlTag::Source => "source",
            HtmlTag::Span => "span",
            HtmlTag::Style => "style",
            HtmlTag::Table => "table",
            HtmlTag::Title => "title",
            HtmlTag::Track => "track",
            HtmlTag::Ul => "ul",
            HtmlTag::Wbr => "wbr",
            HtmlTag::Other(s) => s.as_str(),
        }
    }

    /// The tag's name, as a string of its own.
    pub fn to_string(&self) -> (name: String)
        ensures
            name@ == self@,
    {
        self.as_str().to_owned()
    }

    /// Whether the tag names a void element.
    pub fn is_void(&self) -> (r: bool)
        ensures
            r == is_void_name(self@),
    {
        proof {
            lemma_known_names();
        }
        match self {
            HtmlTag::Area | HtmlTag::Base | HtmlTag::Br | HtmlTag::Col | HtmlTag::Embed | HtmlTag::Hr | HtmlTag::Img | HtmlTag::Input | HtmlTag::Link | HtmlTag::Meta | HtmlTag::Source | HtmlTag::Track | HtmlTag::Wbr => true,
            HtmlTag::Other(s) => {
                let name = chars_of(s.as_str());
                chars_eq(&name, "area") || chars_eq(&name, "base") || chars_eq(&name, "br") || chars_eq(&name, "col") || chars_eq(&name, "embed") || chars_eq(&name, "hr") || chars_eq(&name, "img") || chars_eq(&name, "input") || chars_eq(&name, "link") || chars_eq(&name, "meta") || chars_eq(&name, "source") || chars_eq(&name, "track") || chars_eq(&name, "wbr")
            },
            _ => false,
        }
    }

    /// Whether two tags have the same name.
    pub fn same(&self, other: &HtmlTag) -> (r: bool)
        ensures
            r == (self@ == other@),
    {
        str_eq(self.as_str(), other.as_str())
    }
}

impl Clone for HtmlTag {
    /// A tag with the same name.
    fn clone(&self) -> (tag: HtmlTag)
        ensures
            tag@ == self@,
            tag.canonical() == self.canonical(),
    {
        match self {
            HtmlTag::A => HtmlTag::A,
            HtmlTag::Area => HtmlTag::Area,
            HtmlTag::Base => HtmlTag::Base,
            HtmlTag::Body => HtmlTag::Body,
            HtmlTag::Br => HtmlTag::Br,
            HtmlTag::Button => HtmlTag::Button,
            HtmlTag::Col => HtmlTag::Col,
            HtmlTag::Div => HtmlTag::Div,
            HtmlTag::Embed => HtmlTag::Embed,
            HtmlTag::Form => HtmlTag::Form,
            HtmlTag::H1 => HtmlTag::H1,
            HtmlTag::Head => HtmlTag::Head,
            HtmlTag::Hr => HtmlTag::Hr,
            HtmlTag::Html => HtmlTag::Html,
            HtmlTag::Img => HtmlTag::Img,
            HtmlTag::Input => HtmlTag::Input,
            HtmlTag::Li => HtmlTag::Li,
            HtmlTag::Link => HtmlTag::Link,
            HtmlTag::Meta => HtmlTag::Meta,
            HtmlTag::P => HtmlTag::P,
            HtmlTag::Script => HtmlTag::Script,
            HtmlTag::Section => HtmlTag::Section,
            HtmlTag::Source => HtmlTag::Source,
            HtmlTag::Span => HtmlTag::Span,
            HtmlTag::Style => HtmlTag::Style,
            HtmlTag::Table => HtmlTag::Table,
            HtmlTag::Title => HtmlTag::Title,
            HtmlTag::Track => HtmlTag::Track,
            HtmlTag::Ul => HtmlTag::Ul,
            HtmlTag::Wbr => HtmlTag::Wbr,
            HtmlTag::Other(s) => HtmlTag::Other(s.clone()),
        }
    }
}

} // verus!
