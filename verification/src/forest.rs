//! What a document is, apart from how it is held in memory: elements that
//! refer to one another by handle and form a forest, and the nodes at the
//! root. The operations on documents are stated here, with the proofs that
//! they keep a forest a forest.
use vstd::prelude::*;
use crate::element::ElementRef;
use crate::html_node::{ElementSpanModel, NodeModel, SpanModel};
use crate::text::{
    is_word,
    join_words,
    lemma_split_join,
    lemma_split_words,
    split_ascii_whitespace,
};
use crate::token::AttributeQuoteType;

verus! {

/// What is known of an attribute besides its name.
pub struct AttributeDataModel {
    pub data: Option<Seq<char>>,
    pub quote_type: AttributeQuoteType,
}

/// The attributes of an element: names with what is known of each, in the
/// order in which the names were first set.
pub type Attributes = Seq<(Seq<char>, AttributeDataModel)>;

/// What an element holds.
pub struct ElementModel {
    pub name: Seq<char>,
    pub class_list: Seq<Seq<char>>,
    pub attributes: Attributes,
    pub location: ElementSpanModel,
    pub child_nodes: Seq<NodeModel>,
    pub parent: Option<ElementRef>,
}

/// Whether an attribute named `key` is among `attributes`.
pub open spec fn has_key(attributes: Attributes, key: Seq<char>) -> bool {
    exists|i: int| 0 <= i < attributes.len() && (#[trigger] attributes[i]).0 == key
}

/// The place of the attribute named `key`.
pub open spec fn key_index(attributes: Attributes, key: Seq<char>) -> int {
    choose|i: int| 0 <= i < attributes.len() && (#[trigger] attributes[i]).0 == key
}

/// No two attributes have the same name.
pub open spec fn unique_keys(attributes: Attributes) -> bool {
    forall|i: int, j: int|
        0 <= i < attributes.len() && 0 <= j < attributes.len() && i != j ==> (
        #[trigger] attributes[i]).0 != (#[trigger] attributes[j]).0
}

/// What is known of the attribute named `key`, where there is one.
pub open spec fn lookup(attributes: Attributes, key: Seq<char>) -> Option<AttributeDataModel> {
    if has_key(attributes, key) {
        Some(attributes[key_index(attributes, key)].1)
    } else {
        None
    }
}

/// The value of the attribute named `key`. An attribute without a value and
/// an attribute that is not there both give none.
pub open spec fn value_of(attributes: Attributes, key: Seq<char>) -> Option<Seq<char>> {
    match lookup(attributes, key) {
        Some(data) => data.data,
        None => None,
    }
}

/// The attributes with the one named `key` set to `data`: in its old place
/// where the name was there before, at the end where it is new.
pub open spec fn with_attribute(attributes: Attributes, key: Seq<char>, data: AttributeDataModel) ->
    Attributes {
    if has_key(attributes, key) {
        attributes.update(key_index(attributes, key), (key, data))
    } else {
        attributes.push((key, data))
    }
}

/// The attributes without the one named `key`.
pub open spec fn without_attribute(attributes: Attributes, key: Seq<char>) -> Attributes {
    if has_key(attributes, key) {
        attributes.remove(key_index(attributes, key))
    } else {
        attributes
    }
}

/// The classes that the attributes name: the words of the value of `class`.
pub open spec fn classes_of(attributes: Attributes) -> Seq<Seq<char>> {
    match value_of(attributes, "class"@) {
        Some(value) => split_ascii_whitespace(value),
        None => Seq::empty(),
    }
}

/// The attributes after each of `added` was set in turn, a later one
/// replacing an earlier one of the same name.
pub open spec fn with_all(attributes: Attributes, added: Attributes) -> Attributes
    decreases added.len(),
{
    if added.len() == 0 {
        attributes
    } else {
        with_all(with_attribute(attributes, added[0].0, added[0].1), added.drop_first())
    }
}

/// Setting an attribute keeps the names of the attributes unique.
pub proof fn lemma_with_attribute(attributes: Attributes, key: Seq<char>, data: AttributeDataModel)
    requires
        unique_keys(attributes),
    ensures
        unique_keys(with_attribute(attributes, key, data)),
{
    let after = with_attribute(attributes, key, data);
    if has_key(attributes, key) {
        let k = key_index(attributes, key);
        assert forall|i: int, j: int|
            0 <= i < after.len() && 0 <= j < after.len() && i != j implies (#[trigger] after[i]).0
            != (#[trigger] after[j]).0 by {
            assert(after[i].0 == attributes[i].0);
            assert(after[j].0 == attributes[j].0);
        }
    } else {
        assert forall|i: int, j: int|
            0 <= i < after.len() && 0 <= j < after.len() && i != j implies (#[trigger] after[i]).0
            != (#[trigger] after[j]).0 by {
            if i < attributes.len() {
                assert(after[i] == attributes[i]);
            }
            if j < attributes.len() {
                assert(after[j] == attributes[j]);
            }
        }
    }
}

/// Removing an attribute keeps the names of the attributes unique.
pub proof fn lemma_without_attribute(attributes: Attributes, key: Seq<char>)
    requires
        unique_keys(attributes),
    ensures
        unique_keys(without_attribute(attributes, key)),
{
    let after = without_attribute(attributes, key);
    if has_key(attributes, key) {
        let k = key_index(attributes, key);
        assert forall|i: int, j: int|
            0 <= i < after.len() && 0 <= j < after.len() && i != j implies (#[trigger] after[i]).0
            != (#[trigger] after[j]).0 by {
            let mi = if i < k {
                i
            } else {
                i + 1
            };
            let mj = if j < k {
                j
            } else {
                j + 1
            };
            assert(after[i] == attributes[mi]);
            assert(after[j] == attributes[mj]);
        }
    }
}

/// Setting several attributes keeps the names of the attributes unique.
pub proof fn lemma_with_all(attributes: Attributes, added: Attributes)
    requires
        unique_keys(attributes),
    ensures
        unique_keys(with_all(attributes, added)),
    decreases added.len(),
{
    if added.len() > 0 {
        lemma_with_attribute(attributes, added[0].0, added[0].1);
        lemma_with_all(
            with_attribute(attributes, added[0].0, added[0].1),
            added.drop_first(),
        );
    }
}

impl ElementModel {
    /// An element that stands alone: with a name, and nothing else.
    pub open spec fn new(name: Seq<char>) -> ElementModel {
        ElementModel {
            name,
            class_list: Seq::empty(),
            attributes: Seq::empty(),
            location: ElementSpanModel {
                open_tag: SpanModel { start: (0, 0), end: (0, 0) },
                close_tag: None,
            },
            child_nodes: Seq::empty(),
            parent: None,
        }
    }

    /// The names of the attributes are unique, and the class list is what
    /// the `class` attribute says.
    pub open spec fn wf(self) -> bool {
        &&& unique_keys(self.attributes)
        &&& self.class_list == classes_of(self.attributes)
    }

    /// The element after the attributes of an opening tag were set on it, a
    /// later one replacing an earlier one of the same name, with the span of
    /// the tag for the span of its opening tag.
    pub open spec fn init(self, attributes: Attributes, span: SpanModel) -> ElementModel {
        ElementModel {
            location: ElementSpanModel { open_tag: span, ..self.location },
            ..self.with_attributes(with_all(self.attributes, attributes))
        }
    }

    /// The element that a parse makes of an opening tag: it stands alone,
    /// with the attributes of the tag and the classes that they name.
    pub open spec fn parsed(name: Seq<char>, attributes: Attributes, span: SpanModel) ->
        ElementModel {
        ElementModel::new(name).init(attributes, span)
    }

    /// The element with its attributes replaced and its class list brought
    /// in line with them.
    pub open spec fn with_attributes(self, attributes: Attributes) -> ElementModel {
        ElementModel { attributes, class_list: classes_of(attributes), ..self }
    }
}

/// What a document holds: its elements, each in the place that its handle
/// names, and the nodes at its root.
pub struct DocumentModel {
    pub nodes: Seq<NodeModel>,
    pub elements: Seq<ElementModel>,
}

impl DocumentModel {
    /// The document without elements or nodes.
    pub open spec fn empty() -> DocumentModel {
        DocumentModel { nodes: Seq::empty(), elements: Seq::empty() }
    }

    /// Whether `e` names an element of this document.
    pub open spec fn has(self, e: ElementRef) -> bool {
        e.index < self.elements.len()
    }

    /// What the element `e` holds.
    pub open spec fn element(self, e: ElementRef) -> ElementModel {
        self.elements[e.index as int]
    }

    /// The parent of `e`. An element at the root has none, nor has one that
    /// stands alone.
    pub open spec fn parent(self, e: ElementRef) -> Option<ElementRef> {
        self.elements[e.index as int].parent
    }

    /// The child nodes of `e`, in order.
    pub open spec fn child_nodes(self, e: ElementRef) -> Seq<NodeModel> {
        self.elements[e.index as int].child_nodes
    }

    /// The document with the element `e` replaced.
    pub open spec fn with_element(self, e: ElementRef, element: ElementModel) -> DocumentModel {
        DocumentModel { elements: self.elements.update(e.index as int, element), ..self }
    }

    /// Every element among the nodes of `nodes` belongs to the document, has
    /// `parent` for its parent, and occurs once.
    pub open spec fn children_wf(self, nodes: Seq<NodeModel>, parent: Option<ElementRef>) -> bool {
        &&& forall|j: int|
            0 <= j < nodes.len() && (#[trigger] nodes[j]) is Element ==> self.has(
                nodes[j]->Element_0,
            ) && self.parent(nodes[j]->Element_0) == parent
        &&& forall|i: int, j: int|
            0 <= i < j < nodes.len() && (#[trigger] nodes[i]) is Element ==> nodes[i]
                != #[trigger] nodes[j]
    }

    /// The parent of an element and the children of an element agree: a
    /// child of `p` has `p` for its parent and is its child once, an element
    /// with the parent `p` is among the children of `p`, and an element at
    /// the root has no parent and is there once.
    pub open spec fn links_wf(self) -> bool {
        &&& forall|i: int|
            0 <= i < self.elements.len() ==> self.children_wf(
                (#[trigger] self.elements[i]).child_nodes,
                Some(ElementRef { index: i as usize }),
            )
        &&& forall|i: int|
            0 <= i < self.elements.len() && (#[trigger] self.elements[i]).parent is Some ==> {
                let p = self.elements[i].parent->0;
                self.has(p) && self.child_nodes(p).contains(
                    NodeModel::Element(ElementRef { index: i as usize }),
                )
            }
        &&& self.children_wf(self.nodes, None)
    }

    /// Whether `depth` gives every element a number below `bound` that is
    /// greater than that of its parent.
    pub open spec fn is_depth(self, depth: Seq<nat>, bound: nat) -> bool {
        &&& depth.len() == self.elements.len()
        &&& forall|i: int|
            0 <= i < self.elements.len() ==> (#[trigger] depth[i]) < bound && (
            self.elements[i].parent matches Some(p) ==> p.index < self.elements.len()
                && depth[p.index as int] < depth[i])
    }

    /// No element is its own ancestor.
    pub open spec fn acyclic(self) -> bool {
        exists|depth: Seq<nat>, bound: nat| self.is_depth(depth, bound)
    }

    /// Numbers that witness that no element is its own ancestor, with their
    /// bound.
    pub open spec fn witness(self) -> (Seq<nat>, nat) {
        choose|w: (Seq<nat>, nat)| self.is_depth(w.0, w.1)
    }

    /// The number that the witness gives to `e`.
    pub open spec fn depth(self, e: ElementRef) -> nat {
        self.witness().0[e.index as int]
    }

    /// How far the number of `e` is from the bound of the witness. A child
    /// is closer to it than its parent.
    pub open spec fn height(self, e: ElementRef) -> nat {
        (self.witness().1 - self.witness().0[e.index as int]) as nat
    }

    /// The document is a forest: handles name elements of the document,
    /// parents and children agree, no element is its own ancestor, and each
    /// element is well formed.
    pub open spec fn wf(self) -> bool {
        &&& self.elements.len() <= usize::MAX
        &&& self.links_wf()
        &&& self.acyclic()
        &&& forall|i: int| 0 <= i < self.elements.len() ==> (#[trigger] self.elements[i]).wf()
    }

    /// The witness of a document without cycles is one.
    pub proof fn lemma_witness(self)
        requires
            self.acyclic(),
        ensures
            self.is_depth(self.witness().0, self.witness().1),
    {
        let (depth, bound) = choose|depth: Seq<nat>, bound: nat| self.is_depth(depth, bound);
        assert(self.is_depth((depth, bound).0, (depth, bound).1));
    }

    /// Going from an element to its parent lowers the depth, and going to a
    /// child lowers the height.
    pub proof fn lemma_parent_depth(self, e: ElementRef)
        requires
            self.acyclic(),
            self.has(e),
            self.parent(e) is Some,
        ensures
            self.has(self.parent(e)->0),
            self.depth(self.parent(e)->0) < self.depth(e),
            self.height(e) < self.height(self.parent(e)->0),
    {
        self.lemma_witness();
        let depth = self.witness().0;
        assert(depth[e.index as int] < self.witness().1);
    }

    /// Whether `a` is `x` or one of its ancestors.
    pub open spec fn ancestor_or_self(self, a: ElementRef, x: ElementRef) -> bool
        decreases self.depth(x),
        when self.acyclic() && self.has(x)
    {
        a == x || match self.parent(x) {
            Some(p) => {
                proof {
                    self.lemma_parent_depth(x);
                }
                self.ancestor_or_self(a, p)
            },
            None => false,
        }
    }

    /// Whether `a` is an ancestor of `x`: its parent, or the parent of that,
    /// and so on.
    pub open spec fn ancestor(self, a: ElementRef, x: ElementRef) -> bool {
        match self.parent(x) {
            Some(p) => self.ancestor_or_self(a, p),
            None => false,
        }
    }
}

/// Whether the element `e` is among `nodes`.
pub open spec fn holds(nodes: Seq<NodeModel>, e: ElementRef) -> bool {
    exists|j: int| 0 <= j < nodes.len() && #[trigger] nodes[j] == NodeModel::Element(e)
}

/// The place of the element `e` among `nodes`.
pub open spec fn position(nodes: Seq<NodeModel>, e: ElementRef) -> int {
    choose|j: int| 0 <= j < nodes.len() && #[trigger] nodes[j] == NodeModel::Element(e)
}

/// `nodes` without the node at `at`.
pub open spec fn without(nodes: Seq<NodeModel>, at: int) -> Seq<NodeModel> {
    Seq::new((nodes.len() - 1) as nat, |j: int| if j < at { nodes[j] } else { nodes[j + 1] })
}

/// `nodes` with `node` put in at `at`.
pub open spec fn with_node(nodes: Seq<NodeModel>, at: int, node: NodeModel) -> Seq<NodeModel> {
    Seq::new(
        nodes.len() + 1,
        |j: int|
            if j < at {
                nodes[j]
            } else if j == at {
                node
            } else {
                nodes[j - 1]
            },
    )
}

impl DocumentModel {
    /// The document with one more element, which stands alone. Its handle
    /// is the number of elements that were there before.
    pub open spec fn create(self, element: ElementModel) -> DocumentModel {
        DocumentModel { elements: self.elements.push(element), ..self }
    }

    /// The document with `c` taken out of the place where it stands: out of
    /// the children of its parent, or out of the nodes at the root. An
    /// element that stands alone stays as it is.
    pub open spec fn detach(self, c: ElementRef) -> DocumentModel {
        match self.parent(c) {
            Some(p) => {
                let parent = self.element(p);
                let trimmed = ElementModel {
                    child_nodes: without(parent.child_nodes, position(parent.child_nodes, c)),
                    ..parent
                };
                let trimmed_doc = self.with_element(p, trimmed);
                trimmed_doc.with_element(c, ElementModel { parent: None, ..trimmed_doc.element(c) })
            },
            None => if holds(self.nodes, c) {
                DocumentModel { nodes: without(self.nodes, position(self.nodes, c)), ..self }
            } else {
                self
            },
        }
    }

    /// The document with `c`, which stands alone, made a child of `p` at the
    /// place `at` among its child nodes.
    pub open spec fn attach(self, p: ElementRef, c: ElementRef, at: int) -> DocumentModel {
        let parent = self.element(p);
        let grown = ElementModel {
            child_nodes: with_node(parent.child_nodes, at, NodeModel::Element(c)),
            ..parent
        };
        let grown_doc = self.with_element(p, grown);
        grown_doc.with_element(c, ElementModel { parent: Some(p), ..grown_doc.element(c) })
    }

    /// The document with `c`, which stands alone, put among the nodes at the
    /// root at the place `at`.
    pub open spec fn attach_root(self, c: ElementRef, at: int) -> DocumentModel {
        DocumentModel { nodes: with_node(self.nodes, at, NodeModel::Element(c)), ..self }
    }

    /// Whether `c` stands alone: it has no parent and is not at the root.
    pub open spec fn detached(self, c: ElementRef) -> bool {
        self.parent(c) is None && !holds(self.nodes, c)
    }

    /// Whether `c` can become a child of `p` without the document ceasing to
    /// be a forest: both are elements of the document, and `c` is neither
    /// `p` nor one of its ancestors.
    pub open spec fn movable(self, p: ElementRef, c: ElementRef) -> bool {
        self.has(p) && self.has(c) && !self.ancestor_or_self(c, p)
    }

    /// An element that is added to a forest leaves it a forest.
    pub proof fn lemma_create(self, element: ElementModel)
        requires
            self.wf(),
            self.elements.len() < usize::MAX,
            element.wf(),
            element.parent is None,
            element.child_nodes.len() == 0,
        ensures
            self.create(element).wf(),
            self.create(element).detached(ElementRef { index: self.elements.len() as usize }),
    {
        let after = self.create(element);
        self.lemma_witness();
        let (depth, bound) = self.witness();
        let new_depth = depth.push(0);
        assert(after.is_depth(new_depth, bound + 1)) by {
            assert forall|i: int| 0 <= i < after.elements.len() implies (#[trigger] new_depth[i])
                < bound + 1 && (after.elements[i].parent matches Some(p) ==> p.index
                < after.elements.len() && new_depth[p.index as int] < new_depth[i]) by {
                if i < self.elements.len() {
                    assert(depth[i] < bound);
                    assert(after.elements[i] == self.elements[i]);
                }
            }
        }
        assert forall|i: int| 0 <= i < after.elements.len() implies after.children_wf(
            (#[trigger] after.elements[i]).child_nodes,
            Some(ElementRef { index: i as usize }),
        ) by {
            if i < self.elements.len() {
                assert(after.elements[i] == self.elements[i]);
                assert(self.children_wf(
                    self.elements[i].child_nodes,
                    Some(ElementRef { index: i as usize }),
                ));
            }
        }
        assert forall|i: int|
            0 <= i < after.elements.len() && (#[trigger] after.elements[i]).parent is Some implies {
            let p = after.elements[i].parent->0;
            after.has(p) && after.child_nodes(p).contains(
                NodeModel::Element(ElementRef { index: i as usize }),
            )
        } by {
            assert(after.elements[i] == self.elements[i]);
        }
        assert forall|i: int| 0 <= i < after.elements.len() implies (
        #[trigger] after.elements[i]).wf() by {
            if i < self.elements.len() {
                assert(after.elements[i] == self.elements[i]);
            }
        }
        let e = ElementRef { index: self.elements.len() as usize };
        if holds(self.nodes, e) {
            let j = position(self.nodes, e);
            assert(self.nodes[j] is Element);
            assert(self.has(self.nodes[j]->Element_0));
        }
    }
}

impl DocumentModel {
    /// An element that is the child of another has a place among its
    /// children, and stands there only.
    pub proof fn lemma_child_position(self, c: ElementRef)
        requires
            self.wf(),
            self.has(c),
            self.parent(c) is Some,
        ensures
            self.has(self.parent(c)->0),
            self.parent(c)->0 != c,
            holds(self.child_nodes(self.parent(c)->0), c),
            0 <= position(self.child_nodes(self.parent(c)->0), c) < self.child_nodes(
                self.parent(c)->0,
            ).len(),
            self.child_nodes(self.parent(c)->0)[position(self.child_nodes(self.parent(c)->0), c)]
                == NodeModel::Element(c),
            forall|j: int|
                0 <= j < self.child_nodes(self.parent(c)->0).len() && #[trigger] self.child_nodes(
                    self.parent(c)->0,
                )[j] == NodeModel::Element(c) ==> j == position(
                    self.child_nodes(self.parent(c)->0),
                    c,
                ),
            !holds(self.nodes, c),
    {
        let p = self.parent(c)->0;
        assert(self.elements[c.index as int].parent is Some);
        self.lemma_parent_depth(c);
        let nodes = self.child_nodes(p);
        let j = choose|j: int| 0 <= j < nodes.len() && nodes[j] == NodeModel::Element(c);
        assert(nodes[j] == NodeModel::Element(c));
        assert(self.children_wf(self.elements[p.index as int].child_nodes, Some(p)));
        let k = position(nodes, c);
        assert forall|j: int| 0 <= j < nodes.len() && #[trigger] nodes[j] == NodeModel::Element(
            c,
        ) implies j == k by {
            if j < k {
                assert(nodes[j] != nodes[k]);
            } else if k < j {
                assert(nodes[k] != nodes[j]);
            }
        }
        if holds(self.nodes, c) {
            let r = position(self.nodes, c);
            assert(self.nodes[r] is Element);
        }
    }

    /// An element at the root has a place among the nodes there, and stands
    /// there only.
    pub proof fn lemma_root_position(self, c: ElementRef)
        requires
            self.wf(),
            holds(self.nodes, c),
        ensures
            self.has(c),
            self.parent(c) is None,
            0 <= position(self.nodes, c) < self.nodes.len(),
            self.nodes[position(self.nodes, c)] == NodeModel::Element(c),
            forall|j: int|
                0 <= j < self.nodes.len() && #[trigger] self.nodes[j] == NodeModel::Element(c)
                    ==> j == position(self.nodes, c),
    {
        let nodes = self.nodes;
        let k = position(nodes, c);
        assert(nodes[k] is Element);
        assert forall|j: int| 0 <= j < nodes.len() && #[trigger] nodes[j] == NodeModel::Element(
            c,
        ) implies j == k by {
            if j < k {
                assert(nodes[j] != nodes[k]);
            } else if k < j {
                assert(nodes[k] != nodes[j]);
            }
        }
    }

    /// Taking an element out of its place leaves a forest in which the
    /// element stands alone.
    pub proof fn lemma_detach(self, c: ElementRef)
        requires
            self.wf(),
            self.has(c),
        ensures
            self.detach(c).wf(),
            self.detach(c).detached(c),
            self.detach(c).elements.len() == self.elements.len(),
    {
        let after = self.detach(c);
        self.lemma_witness();
        let (depth, bound) = self.witness();
        match self.parent(c) {
            Some(p) => {
                self.lemma_child_position(c);
                let old_nodes = self.child_nodes(p);
                let k = position(old_nodes, c);
                let new_nodes = without(old_nodes, k);
                assert(after.elements[p.index as int].child_nodes == new_nodes);
                assert(after.elements[c.index as int].parent is None);
                assert(after.is_depth(depth, bound)) by {
                    assert forall|i: int| 0 <= i < after.elements.len() implies (
                    #[trigger] depth[i]) < bound && (after.elements[i].parent matches Some(q)
                        ==> q.index < after.elements.len() && depth[q.index as int]
                        < depth[i]) by {
                        assert(after.elements[i].parent is Some ==> after.elements[i].parent
                            == self.elements[i].parent);
                    }
                }
                assert forall|i: int| 0 <= i < after.elements.len() implies after.children_wf(
                    (#[trigger] after.elements[i]).child_nodes,
                    Some(ElementRef { index: i as usize }),
                ) by {
                    let e = ElementRef { index: i as usize };
                    let before = self.elements[i].child_nodes;
                    let nodes = after.elements[i].child_nodes;
                    assert(self.children_wf(before, Some(e)));
                    if i == p.index {
                        assert forall|j: int|
                            0 <= j < nodes.len() && (#[trigger] nodes[j]) is Element implies after.has(
                            nodes[j]->Element_0,
                        ) && after.parent(nodes[j]->Element_0) == Some(e) by {
                            let m = if j < k {
                                j
                            } else {
                                j + 1
                            };
                            assert(nodes[j] == before[m]);
                            assert(before[m] != NodeModel::Element(c));
                        }
                        assert forall|a: int, b: int|
                            0 <= a < b < nodes.len() && (#[trigger] nodes[a]) is Element implies nodes[a]
                            != #[trigger] nodes[b] by {
                            let ma = if a < k {
                                a
                            } else {
                                a + 1
                            };
                            let mb = if b < k {
                                b
                            } else {
                                b + 1
                            };
                            assert(nodes[a] == before[ma]);
                            assert(nodes[b] == before[mb]);
                        }
                    } else {
                        assert(nodes == before);
                        assert forall|j: int|
                            0 <= j < nodes.len() && (#[trigger] nodes[j]) is Element implies after.has(
                            nodes[j]->Element_0,
                        ) && after.parent(nodes[j]->Element_0) == Some(e) by {
                            assert(self.parent(before[j]->Element_0) == Some(e));
                        }
                    }
                }
                assert forall|i: int|
                    0 <= i < after.elements.len() && (
                    #[trigger] after.elements[i]).parent is Some implies {
                    let q = after.elements[i].parent->0;
                    after.has(q) && after.child_nodes(q).contains(
                        NodeModel::Element(ElementRef { index: i as usize }),
                    )
                } by {
                    let e = ElementRef { index: i as usize };
                    let q = after.elements[i].parent->0;
                    assert(self.elements[i].parent == Some(q));
                    let before = self.child_nodes(q);
                    assert(before.contains(NodeModel::Element(e)));
                    let m = choose|m: int|
                        0 <= m < before.len() && before[m] == NodeModel::Element(e);
                    if q == p {
                        let j = if m < k {
                            m
                        } else {
                            m - 1
                        };
                        assert(m != k);
                        assert(new_nodes[j] == before[m]);
                        assert(after.child_nodes(q)[j] == NodeModel::Element(e));
                    } else {
                        assert(after.child_nodes(q) == before);
                    }
                }
                assert(after.children_wf(after.nodes, None)) by {
                    assert(self.children_wf(self.nodes, None));
                    assert forall|j: int|
                        0 <= j < after.nodes.len() && (
                        #[trigger] after.nodes[j]) is Element implies after.has(
                        after.nodes[j]->Element_0,
                    ) && after.parent(after.nodes[j]->Element_0) is None by {
                        assert(self.parent(self.nodes[j]->Element_0) is None);
                    }
                }
                assert forall|i: int| 0 <= i < after.elements.len() implies (
                #[trigger] after.elements[i]).wf() by {
                    assert(self.elements[i].wf());
                }
                if holds(after.nodes, c) {
                    assert(holds(self.nodes, c));
                }
            },
            None => {
                if holds(self.nodes, c) {
                    self.lemma_root_position(c);
                    let k = position(self.nodes, c);
                    let nodes = after.nodes;
                    assert(after.is_depth(depth, bound));
                    assert(self.children_wf(self.nodes, None));
                    assert forall|j: int|
                        0 <= j < nodes.len() && (#[trigger] nodes[j]) is Element implies after.has(
                        nodes[j]->Element_0,
                    ) && after.parent(nodes[j]->Element_0) is None by {
                        let m = if j < k {
                            j
                        } else {
                            j + 1
                        };
                        assert(nodes[j] == self.nodes[m]);
                    }
                    assert forall|a: int, b: int|
                        0 <= a < b < nodes.len() && (#[trigger] nodes[a]) is Element implies nodes[a]
                        != #[trigger] nodes[b] by {
                        let ma = if a < k {
                            a
                        } else {
                            a + 1
                        };
                        let mb = if b < k {
                            b
                        } else {
                            b + 1
                        };
                        assert(nodes[a] == self.nodes[ma]);
                        assert(nodes[b] == self.nodes[mb]);
                    }
                    assert forall|i: int| 0 <= i < after.elements.len() implies after.children_wf(
                        (#[trigger] after.elements[i]).child_nodes,
                        Some(ElementRef { index: i as usize }),
                    ) by {
                        assert(self.children_wf(
                            self.elements[i].child_nodes,
                            Some(ElementRef { index: i as usize }),
                        ));
                    }
                    if holds(nodes, c) {
                        let j = position(nodes, c);
                        let m = if j < k {
                            j
                        } else {
                            j + 1
                        };
                        assert(nodes[j] == self.nodes[m]);
                    }
                }
            },
        }
    }
}

impl DocumentModel {
    /// An element that stands alone is the child of no element.
    pub proof fn lemma_detached_not_child(self, c: ElementRef, p: ElementRef)
        requires
            self.wf(),
            self.has(p),
            self.parent(c) is None,
        ensures
            !holds(self.child_nodes(p), c),
    {
        if holds(self.child_nodes(p), c) {
            let j = position(self.child_nodes(p), c);
            assert(self.children_wf(self.elements[p.index as int].child_nodes, Some(p)));
            assert(self.child_nodes(p)[j] is Element);
        }
    }

    /// Making an element that stands alone a child of an element that is
    /// not among its descendants leaves a forest.
    pub proof fn lemma_attach(self, p: ElementRef, c: ElementRef, at: int)
        requires
            self.wf(),
            self.movable(p, c),
            self.detached(c),
            0 <= at <= self.child_nodes(p).len(),
        ensures
            self.attach(p, c, at).wf(),
            self.attach(p, c, at).elements.len() == self.elements.len(),
    {
        let after = self.attach(p, c, at);
        self.lemma_witness();
        let (depth, bound) = self.witness();
        assert(p != c);
        let shift = depth[p.index as int] + 1;
        let new_depth = Seq::new(
            depth.len(),
            |i: int|
                if self.ancestor_or_self(c, ElementRef { index: i as usize }) {
                    (depth[i] + shift) as nat
                } else {
                    depth[i]
                },
        );
        assert(depth[p.index as int] < bound);
        assert(after.is_depth(new_depth, bound + bound + 1)) by {
            assert forall|i: int| 0 <= i < after.elements.len() implies (#[trigger] new_depth[i])
                < bound + bound + 1 && (after.elements[i].parent matches Some(q) ==> q.index
                < after.elements.len() && new_depth[q.index as int] < new_depth[i]) by {
                let e = ElementRef { index: i as usize };
                assert(depth[i] < bound);
                assert(self.has(e));
                if i == c.index {
                    assert(e == c);
                    assert(self.ancestor_or_self(c, c));
                    assert(after.elements[i].parent == Some(p));
                    assert(!self.ancestor_or_self(c, p));
                    assert(ElementRef { index: p.index as int as usize } == p);
                } else {
                    assert(after.elements[i].parent == self.elements[i].parent);
                    match self.elements[i].parent {
                        Some(q) => {
                            assert(self.parent(e) == Some(q));
                            assert(self.ancestor_or_self(c, e) == self.ancestor_or_self(c, q));
                            assert(ElementRef { index: q.index as int as usize } == q);
                            assert(depth[q.index as int] < depth[i]);
                        },
                        None => {},
                    }
                }
            }
        }
        self.lemma_detached_not_child(c, p);
        let old_nodes = self.child_nodes(p);
        let new_nodes = with_node(old_nodes, at, NodeModel::Element(c));
        assert(after.elements[p.index as int].child_nodes == new_nodes);
        assert forall|i: int| 0 <= i < after.elements.len() implies after.children_wf(
            (#[trigger] after.elements[i]).child_nodes,
            Some(ElementRef { index: i as usize }),
        ) by {
            let e = ElementRef { index: i as usize };
            let before = self.elements[i].child_nodes;
            let nodes = after.elements[i].child_nodes;
            assert(self.children_wf(before, Some(e)));
            self.lemma_detached_not_child(c, e);
            if i == p.index {
                assert(e == p);
                assert forall|j: int|
                    0 <= j < nodes.len() && (#[trigger] nodes[j]) is Element implies after.has(
                    nodes[j]->Element_0,
                ) && after.parent(nodes[j]->Element_0) == Some(e) by {
                    if j != at {
                        let m = if j < at {
                            j
                        } else {
                            j - 1
                        };
                        assert(nodes[j] == before[m]);
                        assert(before[m] != NodeModel::Element(c));
                    }
                }
                assert forall|a: int, b: int|
                    0 <= a < b < nodes.len() && (#[trigger] nodes[a]) is Element implies nodes[a]
                    != #[trigger] nodes[b] by {
                    let ma = if a < at {
                        a
                    } else {
                        a - 1
                    };
                    let mb = if b < at {
                        b
                    } else {
                        b - 1
                    };
                    if a != at {
                        assert(nodes[a] == before[ma]);
                        assert(before[ma] != NodeModel::Element(c));
                    }
                    if b != at {
                        assert(nodes[b] == before[mb]);
                        assert(before[mb] != NodeModel::Element(c));
                    }
                }
            } else {
                assert(nodes == before);
                assert forall|j: int|
                    0 <= j < nodes.len() && (#[trigger] nodes[j]) is Element implies after.has(
                    nodes[j]->Element_0,
                ) && after.parent(nodes[j]->Element_0) == Some(e) by {
                    assert(before[j] != NodeModel::Element(c));
                    assert(self.parent(before[j]->Element_0) == Some(e));
                }
            }
        }
        assert forall|i: int|
            0 <= i < after.elements.len() && (#[trigger] after.elements[i]).parent is Some implies {
            let q = after.elements[i].parent->0;
            after.has(q) && after.child_nodes(q).contains(
                NodeModel::Element(ElementRef { index: i as usize }),
            )
        } by {
            let e = ElementRef { index: i as usize };
            let q = after.elements[i].parent->0;
            if i == c.index {
                assert(new_nodes[at] == NodeModel::Element(c));
            } else {
                assert(self.elements[i].parent == Some(q));
                let before = self.child_nodes(q);
                assert(before.contains(NodeModel::Element(e)));
                let m = choose|m: int| 0 <= m < before.len() && before[m] == NodeModel::Element(e);
                if q == p {
                    let j = if m < at {
                        m
                    } else {
                        m + 1
                    };
                    assert(new_nodes[j] == before[m]);
                    assert(after.child_nodes(q)[j] == NodeModel::Element(e));
                } else {
                    assert(after.child_nodes(q) == before);
                }
            }
        }
        assert(after.children_wf(after.nodes, None)) by {
            assert(self.children_wf(self.nodes, None));
            assert forall|j: int|
                0 <= j < after.nodes.len() && (#[trigger] after.nodes[j]) is Element implies after.has(
                after.nodes[j]->Element_0,
            ) && after.parent(after.nodes[j]->Element_0) is None by {
                assert(self.parent(self.nodes[j]->Element_0) is None);
                assert(self.nodes[j] != NodeModel::Element(c));
            }
        }
        assert forall|i: int| 0 <= i < after.elements.len() implies (
        #[trigger] after.elements[i]).wf() by {
            assert(self.elements[i].wf());
        }
    }

    /// Putting an element that stands alone at the root leaves a forest.
    pub proof fn lemma_attach_root(self, c: ElementRef, at: int)
        requires
            self.wf(),
            self.has(c),
            self.detached(c),
            0 <= at <= self.nodes.len(),
        ensures
            self.attach_root(c, at).wf(),
    {
        let after = self.attach_root(c, at);
        self.lemma_witness();
        let (depth, bound) = self.witness();
        assert(after.is_depth(depth, bound));
        let nodes = after.nodes;
        assert(self.children_wf(self.nodes, None));
        assert forall|j: int|
            0 <= j < nodes.len() && (#[trigger] nodes[j]) is Element implies after.has(
            nodes[j]->Element_0,
        ) && after.parent(nodes[j]->Element_0) is None by {
            if j != at {
                let m = if j < at {
                    j
                } else {
                    j - 1
                };
                assert(nodes[j] == self.nodes[m]);
            }
        }
        assert forall|a: int, b: int|
            0 <= a < b < nodes.len() && (#[trigger] nodes[a]) is Element implies nodes[a]
            != #[trigger] nodes[b] by {
            let ma = if a < at {
                a
            } else {
                a - 1
            };
            let mb = if b < at {
                b
            } else {
                b - 1
            };
            if a != at {
                assert(nodes[a] == self.nodes[ma]);
            }
            if b != at {
                assert(nodes[b] == self.nodes[mb]);
            }
        }
        assert forall|i: int| 0 <= i < after.elements.len() implies after.children_wf(
            (#[trigger] after.elements[i]).child_nodes,
            Some(ElementRef { index: i as usize }),
        ) by {
            assert(self.children_wf(
                self.elements[i].child_nodes,
                Some(ElementRef { index: i as usize }),
            ));
        }
    }

    /// Taking an element out of its place makes no element the ancestor of
    /// another that was not so before.
    pub proof fn lemma_detach_ancestors(self, c: ElementRef, a: ElementRef, x: ElementRef)
        requires
            self.wf(),
            self.has(c),
            self.has(x),
            self.detach(c).ancestor_or_self(a, x),
        ensures
            self.ancestor_or_self(a, x),
        decreases self.detach(c).depth(x),
    {
        let after = self.detach(c);
        self.lemma_detach(c);
        if a != x {
            match after.parent(x) {
                Some(q) => {
                    after.lemma_parent_depth(x);
                    if self.parent(c) is Some {
                        self.lemma_child_position(c);
                    }
                    assert(self.parent(x) == Some(q));
                    self.lemma_detach_ancestors(c, a, q);
                },
                None => {},
            }
        }
    }
}

/// An attribute that was set is found again, with what it was set to.
pub proof fn lemma_lookup_set(attributes: Attributes, key: Seq<char>, data: AttributeDataModel)
    requires
        unique_keys(attributes),
    ensures
        lookup(with_attribute(attributes, key, data), key) == Some(data),
{
    let after = with_attribute(attributes, key, data);
    if has_key(attributes, key) {
        let k = key_index(attributes, key);
        assert(after[k] == (key, data));
    } else {
        assert(after[attributes.len() as int] == (key, data));
    }
    assert(has_key(after, key));
    let found = key_index(after, key);
    assert(after[found].0 == key);
    if has_key(attributes, key) {
        let k = key_index(attributes, key);
        if found != k {
            assert(after[found] == attributes[found]);
            assert(attributes[found].0 != attributes[k].0);
        }
    } else {
        if found != attributes.len() {
            assert(after[found] == attributes[found]);
        }
    }
}

impl DocumentModel {
    /// The element with what it holds of its own replaced: its name, its
    /// attributes, its class list or its place in the source. Its parent and
    /// its children stay.
    pub open spec fn same_links(self, e: ElementRef, element: ElementModel) -> bool {
        &&& element.child_nodes == self.child_nodes(e)
        &&& element.parent == self.parent(e)
    }

    /// Replacing what an element holds of its own leaves a forest.
    pub proof fn lemma_with_element(self, e: ElementRef, element: ElementModel)
        requires
            self.wf(),
            self.has(e),
            element.wf(),
            self.same_links(e, element),
        ensures
            self.with_element(e, element).wf(),
    {
        let after = self.with_element(e, element);
        self.lemma_witness();
        let (depth, bound) = self.witness();
        assert(after.is_depth(depth, bound)) by {
            assert forall|i: int| 0 <= i < after.elements.len() implies (#[trigger] depth[i])
                < bound && (after.elements[i].parent matches Some(q) ==> q.index
                < after.elements.len() && depth[q.index as int] < depth[i]) by {
                assert(after.elements[i].parent == self.elements[i].parent);
            }
        }
        assert forall|i: int| 0 <= i < after.elements.len() implies after.children_wf(
            (#[trigger] after.elements[i]).child_nodes,
            Some(ElementRef { index: i as usize }),
        ) by {
            let nodes = after.elements[i].child_nodes;
            assert(nodes == self.elements[i].child_nodes);
            assert(self.children_wf(nodes, Some(ElementRef { index: i as usize })));
            assert forall|j: int|
                0 <= j < nodes.len() && (#[trigger] nodes[j]) is Element implies after.has(
                nodes[j]->Element_0,
            ) && after.parent(nodes[j]->Element_0) == Some(ElementRef { index: i as usize }) by {
                assert(after.parent(nodes[j]->Element_0) == self.parent(nodes[j]->Element_0));
            }
        }
        assert forall|i: int|
            0 <= i < after.elements.len() && (#[trigger] after.elements[i]).parent is Some implies {
            let q = after.elements[i].parent->0;
            after.has(q) && after.child_nodes(q).contains(
                NodeModel::Element(ElementRef { index: i as usize }),
            )
        } by {
            let q = after.elements[i].parent->0;
            assert(self.elements[i].parent == Some(q));
            assert(after.child_nodes(q) == self.child_nodes(q));
        }
        assert(after.children_wf(after.nodes, None)) by {
            assert(self.children_wf(self.nodes, None));
            assert forall|j: int|
                0 <= j < after.nodes.len() && (#[trigger] after.nodes[j]) is Element implies after.has(
                after.nodes[j]->Element_0,
            ) && after.parent(after.nodes[j]->Element_0) is None by {
                assert(after.parent(after.nodes[j]->Element_0) == self.parent(
                    self.nodes[j]->Element_0,
                ));
            }
        }
        assert forall|i: int| 0 <= i < after.elements.len() implies (
        #[trigger] after.elements[i]).wf() by {
            if i != e.index {
                assert(self.elements[i].wf());
            }
        }
    }

    /// The document with `node`, which is no element, added at the end of
    /// the children of `e`.
    pub open spec fn add_node(self, e: ElementRef, node: NodeModel) -> DocumentModel {
        self.with_element(
            e,
            ElementModel { child_nodes: self.child_nodes(e).push(node), ..self.element(e) },
        )
    }

    /// The document with `node`, which is no element, added at the end of
    /// the nodes at the root.
    pub open spec fn add_root_node(self, node: NodeModel) -> DocumentModel {
        DocumentModel { nodes: self.nodes.push(node), ..self }
    }

    /// Adding a node that is no element to the children of an element
    /// leaves a forest.
    pub proof fn lemma_add_node(self, e: ElementRef, node: NodeModel)
        requires
            self.wf(),
            self.has(e),
            !(node is Element),
        ensures
            self.add_node(e, node).wf(),
    {
        let after = self.add_node(e, node);
        self.lemma_witness();
        let (depth, bound) = self.witness();
        assert(after.is_depth(depth, bound)) by {
            assert forall|i: int| 0 <= i < after.elements.len() implies (#[trigger] depth[i])
                < bound && (after.elements[i].parent matches Some(q) ==> q.index
                < after.elements.len() && depth[q.index as int] < depth[i]) by {
                assert(after.elements[i].parent == self.elements[i].parent);
            }
        }
        assert forall|i: int| 0 <= i < after.elements.len() implies after.children_wf(
            (#[trigger] after.elements[i]).child_nodes,
            Some(ElementRef { index: i as usize }),
        ) by {
            let nodes = after.elements[i].child_nodes;
            let before = self.elements[i].child_nodes;
            assert(self.children_wf(before, Some(ElementRef { index: i as usize })));
            assert forall|j: int|
                0 <= j < nodes.len() && (#[trigger] nodes[j]) is Element implies after.has(
                nodes[j]->Element_0,
            ) && after.parent(nodes[j]->Element_0) == Some(ElementRef { index: i as usize }) by {
                assert(nodes[j] == before[j]);
                assert(after.parent(nodes[j]->Element_0) == self.parent(nodes[j]->Element_0));
            }
            assert forall|a: int, b: int|
                0 <= a < b < nodes.len() && (#[trigger] nodes[a]) is Element implies nodes[a]
                != #[trigger] nodes[b] by {
                assert(nodes[a] == before[a]);
                if b < before.len() {
                    assert(nodes[b] == before[b]);
                }
            }
        }
        assert forall|i: int|
            0 <= i < after.elements.len() && (#[trigger] after.elements[i]).parent is Some implies {
            let q = after.elements[i].parent->0;
            after.has(q) && after.child_nodes(q).contains(
                NodeModel::Element(ElementRef { index: i as usize }),
            )
        } by {
            let q = after.elements[i].parent->0;
            let x = NodeModel::Element(ElementRef { index: i as usize });
            assert(self.elements[i].parent == Some(q));
            let before = self.child_nodes(q);
            assert(before.contains(x));
            let m = choose|m: int| 0 <= m < before.len() && before[m] == x;
            assert(after.child_nodes(q)[m] == x);
        }
        assert(after.children_wf(after.nodes, None)) by {
            assert(self.children_wf(self.nodes, None));
            assert forall|j: int|
                0 <= j < after.nodes.len() && (#[trigger] after.nodes[j]) is Element implies after.has(
                after.nodes[j]->Element_0,
            ) && after.parent(after.nodes[j]->Element_0) is None by {
                assert(after.parent(after.nodes[j]->Element_0) == self.parent(
                    self.nodes[j]->Element_0,
                ));
            }
        }
        assert forall|i: int| 0 <= i < after.elements.len() implies (
        #[trigger] after.elements[i]).wf() by {
            assert(self.elements[i].wf());
        }
    }

    /// Adding a node that is no element at the root leaves a forest.
    pub proof fn lemma_add_root_node(self, node: NodeModel)
        requires
            self.wf(),
            !(node is Element),
        ensures
            self.add_root_node(node).wf(),
    {
        let after = self.add_root_node(node);
        self.lemma_witness();
        let (depth, bound) = self.witness();
        assert(after.is_depth(depth, bound));
        assert(self.children_wf(self.nodes, None));
        let nodes = after.nodes;
        assert forall|j: int|
            0 <= j < nodes.len() && (#[trigger] nodes[j]) is Element implies after.has(
            nodes[j]->Element_0,
        ) && after.parent(nodes[j]->Element_0) is None by {
            assert(nodes[j] == self.nodes[j]);
        }
        assert forall|a: int, b: int|
            0 <= a < b < nodes.len() && (#[trigger] nodes[a]) is Element implies nodes[a]
            != #[trigger] nodes[b] by {
            assert(nodes[a] == self.nodes[a]);
            if b < self.nodes.len() {
                assert(nodes[b] == self.nodes[b]);
            }
        }
        assert forall|i: int| 0 <= i < after.elements.len() implies after.children_wf(
            (#[trigger] after.elements[i]).child_nodes,
            Some(ElementRef { index: i as usize }),
        ) by {
            assert(self.children_wf(
                self.elements[i].child_nodes,
                Some(ElementRef { index: i as usize }),
            ));
        }
    }
}

/// The elements among `nodes`, in order.
pub open spec fn element_children(nodes: Seq<NodeModel>) -> Seq<ElementRef>
    decreases nodes.len(),
{
    if nodes.len() == 0 {
        Seq::empty()
    } else {
        match nodes.last() {
            NodeModel::Element(e) => element_children(nodes.drop_last()).push(e),
            _ => element_children(nodes.drop_last()),
        }
    }
}

impl DocumentModel {
    /// The document after `c` was added at the end of the children of `p`.
    /// An element that stood elsewhere is moved. An element cannot become a
    /// child of itself or of one of its descendants: the document then
    /// stays as it is.
    pub open spec fn append(self, p: ElementRef, c: ElementRef) -> DocumentModel {
        if self.movable(p, c) {
            let detached = self.detach(c);
            detached.attach(p, c, detached.child_nodes(p).len() as int)
        } else {
            self
        }
    }

    /// The document after `c` was added at the start of the children of `p`.
    pub open spec fn prepend(self, p: ElementRef, c: ElementRef) -> DocumentModel {
        if self.movable(p, c) {
            self.detach(c).attach(p, c, 0)
        } else {
            self
        }
    }

    /// The document after `c` was put directly after `s` among the children
    /// of the parent of `s`. Where `s` has no parent, or `c` is `s`, the
    /// document stays as it is.
    pub open spec fn after(self, s: ElementRef, c: ElementRef) -> DocumentModel {
        match self.parent(s) {
            Some(p) => if self.movable(p, c) && c != s {
                let detached = self.detach(c);
                detached.attach(p, c, position(detached.child_nodes(p), s) + 1)
            } else {
                self
            },
            None => self,
        }
    }

    /// The document after `c` was taken out of the children of `p`. An
    /// element that is no child of `p` stays where it is.
    pub open spec fn remove(self, p: ElementRef, c: ElementRef) -> DocumentModel {
        if self.parent(c) == Some(p) {
            self.detach(c)
        } else {
            self
        }
    }

    /// The document after `c` was added at the end of the nodes at the
    /// root.
    pub open spec fn append_root(self, c: ElementRef) -> DocumentModel {
        let detached = self.detach(c);
        detached.attach_root(c, detached.nodes.len() as int)
    }

    /// The document after `c` was added at the start of the nodes at the
    /// root.
    pub open spec fn prepend_root(self, c: ElementRef) -> DocumentModel {
        self.detach(c).attach_root(c, 0)
    }

    /// The document after `c` was taken out of the nodes at the root. An
    /// element that is not there stays where it is.
    pub open spec fn remove_root(self, c: ElementRef) -> DocumentModel {
        if holds(self.nodes, c) {
            self.detach(c)
        } else {
            self
        }
    }

    /// The element at the top of the tree that `x` stands in.
    pub open spec fn top(self, x: ElementRef) -> ElementRef
        decreases self.depth(x),
        when self.acyclic() && self.has(x)
    {
        match self.parent(x) {
            Some(p) => {
                proof {
                    self.lemma_parent_depth(x);
                }
                self.top(p)
            },
            None => x,
        }
    }

    /// Whether `x` stands in one of the trees at the root.
    pub open spec fn in_tree(self, x: ElementRef) -> bool {
        holds(self.nodes, self.top(x))
    }

    /// Moving an element to the end of the children of another leaves a
    /// forest.
    pub proof fn lemma_append(self, p: ElementRef, c: ElementRef)
        requires
            self.wf(),
            self.has(p),
            self.has(c),
        ensures
            self.append(p, c).wf(),
            self.prepend(p, c).wf(),
            self.append(p, c).elements.len() == self.elements.len(),
            self.prepend(p, c).elements.len() == self.elements.len(),
    {
        if self.movable(p, c) {
            self.lemma_movable_detached(p, c);
            let detached = self.detach(c);
            detached.lemma_attach(p, c, detached.child_nodes(p).len() as int);
            detached.lemma_attach(p, c, 0);
        }
    }

    /// An element that could become a child of another can still do so once
    /// it was taken out of its place.
    pub proof fn lemma_movable_detached(self, p: ElementRef, c: ElementRef)
        requires
            self.wf(),
            self.movable(p, c),
        ensures
            self.detach(c).wf(),
            self.detach(c).movable(p, c),
            self.detach(c).detached(c),
    {
        self.lemma_detach(c);
        if self.detach(c).ancestor_or_self(c, p) {
            self.lemma_detach_ancestors(c, c, p);
        }
    }
}

/// `words` without every occurrence of `word`.
pub open spec fn without_word(words: Seq<Seq<char>>, word: Seq<char>) -> Seq<Seq<char>>
    decreases words.len(),
{
    if words.len() == 0 {
        Seq::empty()
    } else if words.last() == word {
        without_word(words.drop_last(), word)
    } else {
        without_word(words.drop_last(), word).push(words.last())
    }
}

impl ElementModel {
    /// The element with the attribute `name` set to `value`.
    pub open spec fn set_attribute(self, name: Seq<char>, value: Seq<char>) -> ElementModel {
        self.with_attributes(
            with_attribute(
                self.attributes,
                name,
                AttributeDataModel { data: Some(value), quote_type: AttributeQuoteType::Double },
            ),
        )
    }

    /// The element without the attribute `name`.
    pub open spec fn remove_attribute(self, name: Seq<char>) -> ElementModel {
        self.with_attributes(without_attribute(self.attributes, name))
    }

    /// The classes of the element, joined by single spaces.
    pub open spec fn class_name(self) -> Seq<char> {
        join_words(self.class_list)
    }

    /// The element with `name` added to its classes: the `class` attribute
    /// names the classes that there were and then `name`.
    pub open spec fn add_class(self, name: Seq<char>) -> ElementModel {
        self.set_attribute("class"@, join_words(self.class_list.push(name)))
    }

    /// The element without the class `name`: the `class` attribute names
    /// the classes that are left. An element without a `class` attribute
    /// stays as it is.
    pub open spec fn remove_class(self, name: Seq<char>) -> ElementModel {
        if has_key(self.attributes, "class"@) {
            self.set_attribute("class"@, join_words(without_word(self.class_list, name)))
        } else {
            self
        }
    }

    /// Where the element ends in the source: at the end of its closing tag,
    /// or of its opening tag where it has not been closed.
    pub open spec fn end(self) -> (usize, usize) {
        match self.location.close_tag {
            Some(span) => span.end,
            None => self.location.open_tag.end,
        }
    }
}

impl DocumentModel {
    /// The text of the first `count` child nodes of `e`: the content of each
    /// text node, and the text of each element, in order.
    pub open spec fn text_upto(self, e: ElementRef, count: nat) -> Seq<char>
        decreases self.height(e), count,
        when self.wf() && self.has(e) && count <= self.child_nodes(e).len()
    {
        if count == 0 {
            Seq::empty()
        } else {
            self.text_upto(e, (count - 1) as nat) + match self.child_nodes(e)[count - 1] {
                NodeModel::Text { content, .. } => content,
                NodeModel::Element(c) => {
                    proof {
                        self.lemma_child(e, count - 1);
                    }
                    self.text_upto(c, self.child_nodes(c).len())
                },
                _ => Seq::empty(),
            }
        }
    }

    /// The text of `e`: that of all its text descendants, in the order in
    /// which they stand in the document.
    pub open spec fn text_content(self, e: ElementRef) -> Seq<char> {
        self.text_upto(e, self.child_nodes(e).len())
    }

    /// An element among the children of `e` belongs to the document, has `e`
    /// for its parent and stands lower than `e`.
    pub proof fn lemma_child(self, e: ElementRef, j: int)
        requires
            self.wf(),
            self.has(e),
            0 <= j < self.child_nodes(e).len(),
            self.child_nodes(e)[j] is Element,
        ensures
            self.has(self.child_nodes(e)[j]->Element_0),
            self.parent(self.child_nodes(e)[j]->Element_0) == Some(e),
            self.height(self.child_nodes(e)[j]->Element_0) < self.height(e),
            self.depth(self.child_nodes(e)[j]->Element_0) > self.depth(e),
    {
        assert(self.children_wf(self.elements[e.index as int].child_nodes, Some(e)));
        let c = self.child_nodes(e)[j]->Element_0;
        assert(self.elements[e.index as int].child_nodes[j] is Element);
        self.lemma_parent_depth(c);
    }
}

impl DocumentModel {
    /// Taking `c` out of its place leaves every other element with the
    /// parent it had, and in its place among that parent's children.
    pub proof fn lemma_detach_keeps(self, c: ElementRef, s: ElementRef)
        requires
            self.wf(),
            self.has(c),
            self.has(s),
            s != c,
        ensures
            self.detach(c).parent(s) == self.parent(s),
            self.parent(s) is Some ==> holds(self.detach(c).child_nodes(self.parent(s)->0), s),
    {
        self.lemma_detach(c);
        let after = self.detach(c);
        if self.parent(c) is Some {
            self.lemma_child_position(c);
        }
        if self.parent(s) is Some {
            after.lemma_child_position(s);
        }
    }
}

/// What is left of a list of words when one word is taken out was in the
/// list.
pub proof fn lemma_without_word(words: Seq<Seq<char>>, word: Seq<char>)
    ensures
        forall|i: int|
            0 <= i < without_word(words, word).len() ==> words.contains(
                #[trigger] without_word(words, word)[i],
            ) && without_word(words, word)[i] != word,
    decreases words.len(),
{
    if words.len() > 0 {
        let rest = words.drop_last();
        lemma_without_word(rest, word);
        let kept = without_word(words, word);
        assert forall|i: int| 0 <= i < kept.len() implies words.contains(#[trigger] kept[i])
            && kept[i] != word by {
            if i < without_word(rest, word).len() {
                assert(kept[i] == without_word(rest, word)[i]);
                let j = choose|j: int| 0 <= j < rest.len() && rest[j] == kept[i];
                assert(words[j] == kept[i]);
            } else {
                assert(kept[i] == words.last());
                assert(words[words.len() - 1] == kept[i]);
            }
        }
    }
}

impl ElementModel {
    /// Setting the `class` attribute of an element makes its class list the
    /// words of the new value, in order.
    pub proof fn lemma_set_class(self, value: Seq<char>)
        requires
            self.wf(),
        ensures
            self.set_attribute("class"@, value).class_list == split_ascii_whitespace(value),
            self.set_attribute("class"@, value).wf(),
    {
        let data = AttributeDataModel {
            data: Some(value),
            quote_type: AttributeQuoteType::Double,
        };
        lemma_lookup_set(self.attributes, "class"@, data);
        lemma_with_attribute(self.attributes, "class"@, data);
    }

    /// Adding a class that is a word appends it to the class list.
    pub proof fn lemma_add_class(self, name: Seq<char>)
        requires
            self.wf(),
            is_word(name),
        ensures
            self.add_class(name).class_list == self.class_list.push(name),
    {
        let words = self.class_list.push(name);
        match value_of(self.attributes, "class"@) {
            Some(value) => {
                lemma_split_words(value);
            },
            None => {},
        }
        assert forall|i: int| 0 <= i < words.len() implies is_word(#[trigger] words[i]) by {
            if i < self.class_list.len() {
                assert(words[i] == self.class_list[i]);
            }
        }
        lemma_split_join(words);
        self.lemma_set_class(join_words(words));
    }

    /// Removing a class from an element that has a `class` attribute leaves
    /// the classes that are not the one removed, in their order.
    pub proof fn lemma_remove_class(self, name: Seq<char>)
        requires
            self.wf(),
            has_key(self.attributes, "class"@),
        ensures
            self.remove_class(name).class_list == without_word(self.class_list, name),
            !self.remove_class(name).class_list.contains(name),
    {
        let words = without_word(self.class_list, name);
        match value_of(self.attributes, "class"@) {
            Some(value) => {
                lemma_split_words(value);
            },
            None => {},
        }
        lemma_without_word(self.class_list, name);
        assert forall|i: int| 0 <= i < words.len() implies is_word(#[trigger] words[i]) by {
            let j = choose|j: int| 0 <= j < self.class_list.len() && self.class_list[j] == words[i];
            assert(is_word(self.class_list[j]));
        }
        lemma_split_join(words);
        self.lemma_set_class(join_words(words));
    }
}

/// Whether each element of `path` but the last has the next one among its
/// children.
pub open spec fn is_path(doc: DocumentModel, path: Seq<ElementRef>) -> bool {
    forall|i: int|
        0 <= i < path.len() - 1 ==> doc.has(#[trigger] path[i]) && holds(
            doc.child_nodes(path[i]),
            path[i + 1],
        )
}

/// Whether a path of children leads from `p` down to `x`.
pub open spec fn reaches(doc: DocumentModel, p: ElementRef, x: ElementRef) -> bool {
    exists|path: Seq<ElementRef>|
        path.len() >= 2 && path[0] == p && path.last() == x && #[trigger] is_path(doc, path)
}

impl DocumentModel {
    /// Appending an element to another and removing it again leaves the
    /// children of that other element as they were, and the element without
    /// a parent. This holds of an element that can be appended, and that was
    /// not a child of the other element before.
    pub proof fn lemma_append_remove(self, p: ElementRef, c: ElementRef)
        requires
            self.wf(),
            self.movable(p, c),
            self.parent(c) != Some(p),
        ensures
            self.append(p, c).remove(p, c).child_nodes(p) == self.child_nodes(p),
            self.append(p, c).remove(p, c).parent(c) is None,
            self.append(p, c).remove(p, c).wf(),
    {
        self.lemma_movable_detached(p, c);
        let detached = self.detach(c);
        let nodes = detached.child_nodes(p);
        if self.parent(c) is Some {
            self.lemma_child_position(c);
        }
        assert(nodes == self.child_nodes(p));
        let count = nodes.len() as int;
        detached.lemma_attach(p, c, count);
        detached.lemma_detached_not_child(c, p);
        let attached = detached.attach(p, c, count);
        assert(attached.parent(c) == Some(p));
        let grown = attached.child_nodes(p);
        assert(grown == with_node(nodes, count, NodeModel::Element(c)));
        assert(grown[count] == NodeModel::Element(c));
        attached.lemma_child_position(c);
        assert(position(grown, c) == count);
        attached.lemma_detach(c);
        let removed = attached.remove(p, c);
        assert(removed.child_nodes(p) =~= nodes);
    }

    /// An ancestor of an element is joined to it by a path of children.
    pub proof fn lemma_ancestor_reaches(self, p: ElementRef, x: ElementRef)
        requires
            self.wf(),
            self.has(x),
            self.ancestor(p, x),
        ensures
            reaches(self, p, x),
        decreases self.depth(x),
    {
        let q = self.parent(x)->0;
        self.lemma_child_position(x);
        if q == p {
            let path = seq![p, x];
            assert(is_path(self, path)) by {
                assert forall|i: int| 0 <= i < path.len() - 1 implies self.has(#[trigger] path[i])
                    && holds(self.child_nodes(path[i]), path[i + 1]) by {
                    assert(path[0] == p && path[1] == x);
                }
            }
            assert(path.last() == x);
        } else {
            self.lemma_parent_depth(x);
            assert(self.ancestor(p, q));
            self.lemma_ancestor_reaches(p, q);
            let upper = choose|path: Seq<ElementRef>|
                path.len() >= 2 && path[0] == p && path.last() == q && #[trigger] is_path(
                    self,
                    path,
                );
            let path = upper.push(x);
            assert(is_path(self, path)) by {
                assert forall|i: int| 0 <= i < path.len() - 1 implies self.has(#[trigger] path[i])
                    && holds(self.child_nodes(path[i]), path[i + 1]) by {
                    if i < upper.len() - 1 {
                        assert(path[i] == upper[i]);
                        assert(path[i + 1] == upper[i + 1]);
                    } else {
                        assert(path[i] == q);
                        assert(path[i + 1] == x);
                    }
                }
            }
            assert(path[0] == p);
            assert(path.last() == x);
        }
    }

    /// An element at the end of a path of children has the element at its
    /// start for an ancestor.
    pub proof fn lemma_path_ancestor(self, path: Seq<ElementRef>)
        requires
            self.wf(),
            path.len() >= 2,
            is_path(self, path),
        ensures
            self.has(path.last()),
            self.ancestor(path[0], path.last()),
        decreases path.len(),
    {
        let x = path.last();
        let q = path[path.len() - 2];
        assert(self.has(q) && holds(self.child_nodes(q), path[path.len() - 2 + 1]));
        let j = position(self.child_nodes(q), x);
        assert(self.children_wf(self.elements[q.index as int].child_nodes, Some(q)));
        assert(self.child_nodes(q)[j] is Element);
        assert(self.parent(x) == Some(q));
        if path.len() > 2 {
            let upper = path.drop_last();
            assert(is_path(self, upper)) by {
                assert forall|i: int| 0 <= i < upper.len() - 1 implies self.has(
                    #[trigger] upper[i],
                ) && holds(self.child_nodes(upper[i]), upper[i + 1]) by {
                    assert(upper[i] == path[i]);
                    assert(upper[i + 1] == path[i + 1]);
                }
            }
            self.lemma_path_ancestor(upper);
            assert(upper.last() == q);
            assert(upper[0] == path[0]);
            assert(self.ancestor_or_self(path[0], q));
        } else {
            assert(q == path[0]);
            assert(self.ancestor_or_self(path[0], q));
        }
    }

    /// An element contains another exactly where a path of children leads
    /// from the one down to the other.
    pub proof fn lemma_contains_reaches(self, p: ElementRef, x: ElementRef)
        requires
            self.wf(),
            self.has(x),
        ensures
            self.ancestor(p, x) <==> reaches(self, p, x),
    {
        if self.ancestor(p, x) {
            self.lemma_ancestor_reaches(p, x);
        }
        if reaches(self, p, x) {
            let path = choose|path: Seq<ElementRef>|
                path.len() >= 2 && path[0] == p && path.last() == x && #[trigger] is_path(
                    self,
                    path,
                );
            self.lemma_path_ancestor(path);
        }
    }
}

} // verus!
