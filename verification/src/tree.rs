//! The document: the elements that a parse or a caller has made, and the
//! nodes at its root. The document owns its elements; everything else
//! refers to them by handle.
use vstd::prelude::*;
use crate::element::{elements_of, Element, ElementRef};
use crate::forest::{element_children, holds, position, with_node, without, DocumentModel};
use crate::html_node::{nodes_view, HtmlNode, NodeModel};

verus! {

/// A document: its elements, and the nodes at its root.
pub struct HtmlDocument {
    /// The nodes at the root.
    pub nodes: Vec<HtmlNode>,
    /// The elements, each in the place that its handle names.
    pub elements: Vec<Element>,
}

impl View for HtmlDocument {
    type V = DocumentModel;

    open spec fn view(&self) -> DocumentModel {
        DocumentModel {
            nodes: nodes_view(self.nodes@),
            elements: Seq::new(self.elements.len() as nat, |i: int| self.elements[i]@),
        }
    }
}

/// The first place at which the element `e` stands among `nodes`.
pub fn find_element(nodes: &Vec<HtmlNode>, e: ElementRef) -> (found: Option<usize>)
    ensures
        match found {
            Some(j) => j < nodes.len() && nodes_view(nodes@)[j as int] == NodeModel::Element(e)
                && forall|i: int| 0 <= i < j ==> nodes_view(nodes@)[i] != NodeModel::Element(e),
            None => !holds(nodes_view(nodes@), e),
        },
{
    let mut j: usize = 0;
    while j < nodes.len()
        invariant
            j <= nodes.len(),
            forall|i: int| 0 <= i < j ==> nodes_view(nodes@)[i] != NodeModel::Element(e),
        decreases nodes.len() - j,
    {
        match &nodes[j] {
            HtmlNode::Element(other) => {
                if other.index == e.index {
                    return Some(j);
                }
            },
            _ => {},
        }
        j += 1;
    }
    None
}

impl HtmlDocument {
    /// The document is a forest.
    pub open spec fn wf(&self) -> bool {
        self@.wf()
    }

    /// The document without elements or nodes.
    pub fn new() -> (doc: HtmlDocument)
        ensures
            doc.wf(),
            doc@ == DocumentModel::empty(),
    {
        let doc = HtmlDocument { nodes: Vec::new(), elements: Vec::new() };
        assert(doc@.nodes =~= Seq::empty());
        assert(doc@.elements =~= Seq::empty());
        assert(doc@.is_depth(Seq::empty(), 0));
        doc
    }

    /// Adds an element that stands alone, and returns its handle.
    pub fn create(&mut self, element: Element) -> (e: ElementRef)
        requires
            old(self).wf(),
            element@.wf(),
            element@.parent is None,
            element@.child_nodes.len() == 0,
        ensures
            final(self).wf(),
            final(self)@ == old(self)@.create(element@),
            e.index == old(self)@.elements.len(),
            final(self)@.has(e),
            final(self)@.detached(e),
    {
        let index = self.elements.len();
        self.elements.push(element);
        proof {
            assert(self@.elements =~= old(self)@.elements.push(element@));
            old(self)@.lemma_create(element@);
        }
        ElementRef { index }
    }

    /// Takes `c` out of the place where it stands.
    pub fn detach(&mut self, c: ElementRef)
        requires
            old(self).wf(),
            old(self)@.has(c),
        ensures
            final(self).wf(),
            final(self)@ == old(self)@.detach(c),
    {
        let ghost before = self@;
        proof {
            before.lemma_detach(c);
        }
        match self.elements[c.index].parent {
            Some(p) => {
                proof {
                    before.lemma_child_position(c);
                }
                match find_element(&self.elements[p.index].child_nodes, c) {
                    Some(k) => {
                        let ghost old_nodes = self.elements[p.index as int].child_nodes@;
                        self.elements[p.index].child_nodes.remove(k);
                        self.elements[c.index].parent = None;
                        proof {
                            assert(k == position(before.child_nodes(p), c));
                            assert(nodes_view(old_nodes.remove(k as int)) =~= without(
                                nodes_view(old_nodes),
                                k as int,
                            ));
                            assert(self@.elements =~= before.detach(c).elements);
                        }
                    },
                    None => {
                        assert(false);
                    },
                }
            },
            None => {
                match find_element(&self.nodes, c) {
                    Some(k) => {
                        proof {
                            assert(holds(before.nodes, c));
                            before.lemma_root_position(c);
                        }
                        let ghost old_nodes = self.nodes@;
                        self.nodes.remove(k);
                        proof {
                            assert(nodes_view(old_nodes.remove(k as int)) =~= without(
                                nodes_view(old_nodes),
                                k as int,
                            ));
                            assert(self@.elements =~= before.elements);
                        }
                    },
                    None => {},
                }
            },
        }
    }

    /// Makes `c`, which stands alone, a child of `p` at the place `at`.
    pub fn attach(&mut self, p: ElementRef, c: ElementRef, at: usize)
        requires
            old(self).wf(),
            old(self)@.movable(p, c),
            old(self)@.detached(c),
            at <= old(self)@.child_nodes(p).len(),
        ensures
            final(self).wf(),
            final(self)@ == old(self)@.attach(p, c, at as int),
    {
        let ghost before = self@;
        proof {
            before.lemma_attach(p, c, at as int);
        }
        let ghost old_nodes = self.elements[p.index as int].child_nodes@;
        self.elements[p.index].child_nodes.insert(at, HtmlNode::Element(c));
        self.elements[c.index].parent = Some(p);
        proof {
            assert(nodes_view(old_nodes.insert(at as int, HtmlNode::Element(c))) =~= with_node(
                nodes_view(old_nodes),
                at as int,
                NodeModel::Element(c),
            ));
            assert(self@.elements =~= before.attach(p, c, at as int).elements);
        }
    }

    /// Puts `c`, which stands alone, among the nodes at the root at the
    /// place `at`.
    pub fn attach_root(&mut self, c: ElementRef, at: usize)
        requires
            old(self).wf(),
            old(self)@.has(c),
            old(self)@.detached(c),
            at <= old(self)@.nodes.len(),
        ensures
            final(self).wf(),
            final(self)@ == old(self)@.attach_root(c, at as int),
    {
        let ghost before = self@;
        proof {
            before.lemma_attach_root(c, at as int);
        }
        let ghost old_nodes = self.nodes@;
        self.nodes.insert(at, HtmlNode::Element(c));
        proof {
            assert(nodes_view(old_nodes.insert(at as int, HtmlNode::Element(c))) =~= with_node(
                nodes_view(old_nodes),
                at as int,
                NodeModel::Element(c),
            ));
            assert(self@.elements =~= before.elements);
        }
    }

    /// Whether `a` is `x` or one of its ancestors.
    pub fn is_ancestor_or_self(&self, a: ElementRef, x: ElementRef) -> (r: bool)
        requires
            self.wf(),
            self@.has(x),
        ensures
            r == self@.ancestor_or_self(a, x),
    {
        let mut current = x;
        loop
            invariant
                self.wf(),
                self@.has(current),
                self@.ancestor_or_self(a, current) == self@.ancestor_or_self(a, x),
            decreases self@.depth(current),
        {
            if current.index == a.index {
                return true;
            }
            match self.elements[current.index].parent {
                Some(p) => {
                    proof {
                        self@.lemma_parent_depth(current);
                    }
                    current = p;
                },
                None => {
                    return false;
                },
            }
        }
    }
}

impl HtmlDocument {
    /// The document is at the top: it has no parent.
    pub fn parent(&self) -> (parent: Option<ElementRef>)
        ensures
            parent is None,
    {
        None
    }

    /// The elements among the nodes at the root, in order.
    pub fn children(&self) -> (children: Vec<ElementRef>)
        ensures
            children@ == element_children(self@.nodes),
    {
        elements_of(&self.nodes)
    }

    /// Append an element to the end of the document. An element that stood
    /// elsewhere is moved.
    pub fn append(&mut self, child: &ElementRef)
        requires
            old(self).wf(),
            old(self)@.has(*child),
        ensures
            final(self).wf(),
            final(self)@ == old(self)@.append_root(*child),
    {
        proof {
            self@.lemma_detach(*child);
        }
        self.detach(*child);
        let at = self.nodes.len();
        self.attach_root(*child, at);
    }

    /// Prepend an element at the start of the document.
    pub fn prepend(&mut self, child: &ElementRef)
        requires
            old(self).wf(),
            old(self)@.has(*child),
        ensures
            final(self).wf(),
            final(self)@ == old(self)@.prepend_root(*child),
    {
        proof {
            self@.lemma_detach(*child);
        }
        self.detach(*child);
        self.attach_root(*child, 0);
    }

    /// Check if there are nodes at the root.
    pub fn has_children(&self) -> (r: bool)
        ensures
            r == (self@.nodes.len() > 0),
    {
        self.nodes.len() > 0
    }

    /// Disconnect an element from the root.
    /// If the element is not at the root then nothing happens.
    pub fn remove(&mut self, node: &ElementRef)
        requires
            old(self).wf(),
            old(self)@.has(*node),
        ensures
            final(self).wf(),
            final(self)@ == old(self)@.remove_root(*node),
    {
        if find_element(&self.nodes, *node).is_some() {
            self.detach(*node);
        }
    }

    /// Check if an element stands in one of the trees of the document.
    pub fn contains(&self, node: &ElementRef) -> (r: bool)
        requires
            self.wf(),
            self@.has(*node),
        ensures
            r == self@.in_tree(*node),
    {
        let mut current = *node;
        loop
            invariant
                self.wf(),
                self@.has(current),
                self@.top(current) == self@.top(*node),
            decreases self@.depth(current),
        {
            match self.elements[current.index].parent {
                Some(p) => {
                    proof {
                        self@.lemma_parent_depth(current);
                    }
                    current = p;
                },
                None => {
                    return find_element(&self.nodes, current).is_some();
                },
            }
        }
    }

    /// Adds a node that is no element at the end of the nodes at the root.
    pub fn append_node(&mut self, node: HtmlNode)
        requires
            old(self).wf(),
            !(node@ is Element),
        ensures
            final(self).wf(),
            final(self)@ == old(self)@.add_root_node(node@),
    {
        let ghost before = self@;
        let ghost old_nodes = self.nodes@;
        self.nodes.push(node);
        proof {
            assert(nodes_view(old_nodes.push(node)) =~= nodes_view(old_nodes).push(node@));
            assert(self@.elements =~= before.elements);
            before.lemma_add_root_node(node@);
        }
    }
}

} // verus!
