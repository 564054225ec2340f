//! Positions, spans and the nodes of a document other than elements.
use vstd::prelude::*;
use crate::element::ElementRef;
use crate::token::DocTypeIdentifier;

verus! {

/// A position in the source: a row and a column, both counted from 1.
pub type Locus = (usize, usize);

/// The row and column that a two-item array holds.
pub open spec fn locus_of(position: [usize; 2]) -> Locus {
    (position[0], position[1])
}

/// The stretch of source between two positions.
#[derive(Clone, Copy, Debug, PartialEq)]
pub struct Span {
    pub start: [usize; 2],
    pub end: [usize; 2],
}

/// What a span says: where it starts and where it ends.
pub struct SpanModel {
    pub start: Locus,
    pub end: Locus,
}

impl View for Span {
    type V = SpanModel;

    open spec fn view(&self) -> SpanModel {
        SpanModel { start: locus_of(self.start), end: locus_of(self.end) }
    }
}

impl Span {
    /// Create a span with the given range.
    pub fn over(start: [usize; 2], end: [usize; 2]) -> (span: Span)
        ensures
            span.start == start,
            span.end == end,
    {
        Span { start, end }
    }
}

/// Where an element stands in the source: the span of its opening tag and,
/// once the element has been closed, that of its closing tag.
#[derive(Clone, Copy, Debug, PartialEq)]
pub struct ElementSpan {
    pub open_tag: Span,
    pub close_tag: Option<Span>,
}

/// What the span of an element says.
pub struct ElementSpanModel {
    pub open_tag: SpanModel,
    pub close_tag: Option<SpanModel>,
}

impl View for ElementSpan {
    type V = ElementSpanModel;

    open spec fn view(&self) -> ElementSpanModel {
        ElementSpanModel {
            open_tag: self.open_tag@,
            close_tag: match self.close_tag {
                Some(span) => Some(span@),
                None => None,
            },
        }
    }
}

impl ElementSpan {
    /// The span of an element that did not come from a source.
    pub fn empty() -> (span: ElementSpan)
        ensures
            span@ == (ElementSpanModel {
                open_tag: SpanModel { start: (0, 0), end: (0, 0) },
                close_tag: None,
            }),
    {
        ElementSpan { open_tag: Span { start: [0, 0], end: [0, 0] }, close_tag: None }
    }
}

/// A document type declaration.
#[derive(Debug)]
pub struct HtmlDocType {
    pub name: String,
    pub identifier: Option<DocTypeIdentifier>,
    pub force_quirks: bool,
}

/// A run of text.
#[derive(Debug)]
pub struct HtmlTextNode {
    pub content: String,
    pub span: Span,
}

/// The document type declaration as a node of the document.
#[derive(Debug)]
pub struct DocRef {
    pub doctype: HtmlDocType,
}

/// A comment.
#[derive(Debug)]
pub struct HtmlComment {
    pub content: String,
    pub span: Span,
}

/// A node of a document. An element is held by its handle; the element
/// itself lives in the document.
#[derive(Debug)]
pub enum HtmlNode {
    DocType(DocRef),
    Text(HtmlTextNode),
    Element(ElementRef),
    Comment(HtmlComment),
}

/// What a node says, with its strings as sequences of characters.
pub enum NodeModel {
    DocType { name: Seq<char>, identifier: Option<DocTypeIdentifier>, force_quirks: bool },
    Text { content: Seq<char>, span: SpanModel },
    Element(ElementRef),
    Comment { content: Seq<char>, span: SpanModel },
}

impl View for HtmlNode {
    type V = NodeModel;

    open spec fn view(&self) -> NodeModel {
        match self {
            HtmlNode::DocType(d) => NodeModel::DocType {
                name: d.doctype.name@,
                identifier: d.doctype.identifier,
                force_quirks: d.doctype.force_quirks,
            },
            HtmlNode::Text(t) => NodeModel::Text { content: t.content@, span: t.span@ },
            HtmlNode::Element(e) => NodeModel::Element(*e),
            HtmlNode::Comment(c) => NodeModel::Comment { content: c.content@, span: c.span@ },
        }
    }
}

/// The models of a sequence of nodes, in order.
pub open spec fn nodes_view(nodes: Seq<HtmlNode>) -> Seq<NodeModel> {
    Seq::new(nodes.len(), |i: int| nodes[i]@)
}

impl HtmlNode {
    /// The element's handle, where the node is an element.
    pub fn as_element_ref(&self) -> (r: Option<ElementRef>)
        ensures
            r == match self@ {
                NodeModel::Element(e) => Some(e),
                _ => None,
            },
    {
        match self {
            HtmlNode::Element(el) => Some(*el),
            _ => None,
        }
    }

    /// Returns `true` if the node is an element.
    #[must_use]
    pub fn is_element(&self) -> (r: bool)
        ensures
            r == (self@ is Element),
    {
        match self {
            HtmlNode::Element(_) => true,
            _ => false,
        }
    }
}

} // verus!
