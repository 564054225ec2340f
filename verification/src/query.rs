//! Searching a document: the elements below an element, or below the root,
//! that meet a selector, have a class, an id or a tag.
use vstd::prelude::*;
use crate::element::ElementRef;
use crate::forest::{position, value_of, DocumentModel};
use crate::html_node::{nodes_view, HtmlNode, NodeModel};
use crate::selector::matcher::matches_selector;
use crate::selector::parser::{parse_selector, parse_spec};
use crate::selector::pattern::{Selector, SelectorModel};
use crate::tag::HtmlTag;
use crate::text::str_eq;
use crate::tree::HtmlDocument;

verus! {

/// What a search asks of an element.
pub enum Criterion<'a> {
    /// To meet a selector.
    Selector(&'a Selector),
    /// To have a class.
    Class(&'a str),
    /// To have an id.
    Id(&'a str),
    /// To have a tag.
    Tag(&'a HtmlTag),
}

/// What a search asks of an element, with its strings as sequences of
/// characters.
pub enum CriterionModel {
    Selector(SelectorModel),
    Class(Seq<char>),
    Id(Seq<char>),
    Tag(Seq<char>),
}

impl<'a> View for Criterion<'a> {
    type V = CriterionModel;

    open spec fn view(&self) -> CriterionModel {
        match self {
            Criterion::Selector(selector) => CriterionModel::Selector(selector@),
            Criterion::Class(name) => CriterionModel::Class(name@),
            Criterion::Id(id) => CriterionModel::Id(id@),
            Criterion::Tag(tag) => CriterionModel::Tag(tag@),
        }
    }
}

/// Whether the element `e` meets `criterion`.
pub open spec fn meets(doc: DocumentModel, criterion: CriterionModel, e: ElementRef) -> bool {
    match criterion {
        CriterionModel::Selector(selector) => matches_selector(doc, selector, e),
        CriterionModel::Class(name) => doc.element(e).class_list.contains(name),
        CriterionModel::Id(id) => value_of(doc.element(e).attributes, "id"@) == Some(id),
        CriterionModel::Tag(tag) => doc.element(e).name == tag,
    }
}

/// The elements of `list` that meet `criterion`, in order.
pub open spec fn meeting(doc: DocumentModel, criterion: CriterionModel, list: Seq<ElementRef>) ->
    Seq<ElementRef>
    decreases list.len(),
{
    if list.len() == 0 {
        Seq::empty()
    } else if meets(doc, criterion, list.last()) {
        meeting(doc, criterion, list.drop_last()).push(list.last())
    } else {
        meeting(doc, criterion, list.drop_last())
    }
}

/// The first element of `list` that meets `criterion`.
pub open spec fn first_meeting(
    doc: DocumentModel,
    criterion: CriterionModel,
    list: Seq<ElementRef>,
) -> Option<ElementRef>
    decreases list.len(),
{
    if list.len() == 0 {
        None
    } else if meets(doc, criterion, list[0]) {
        Some(list[0])
    } else {
        first_meeting(doc, criterion, list.drop_first())
    }
}

impl DocumentModel {
    /// The elements that stand below `e` within its first `count` child
    /// nodes, each before its own descendants and before the child nodes
    /// that follow it.
    pub open spec fn descendants_upto(self, e: ElementRef, count: nat) -> Seq<ElementRef>
        decreases self.height(e), count,
        when self.wf() && self.has(e) && count <= self.child_nodes(e).len()
    {
        if count == 0 {
            Seq::empty()
        } else {
            self.descendants_upto(e, (count - 1) as nat) + match self.child_nodes(e)[count - 1] {
                NodeModel::Element(c) => {
                    proof {
                        self.lemma_child(e, count - 1);
                    }
                    seq![c] + self.descendants_upto(c, self.child_nodes(c).len())
                },
                _ => Seq::empty(),
            }
        }
    }

    /// The elements that stand below `e`, in the order of the document.
    pub open spec fn descendants(self, e: ElementRef) -> Seq<ElementRef> {
        self.descendants_upto(e, self.child_nodes(e).len())
    }

    /// The elements that stand in the first `count` trees at the root, in
    /// the order of the document.
    pub open spec fn elements_upto(self, count: nat) -> Seq<ElementRef>
        decreases count,
        when count <= self.nodes.len()
    {
        if count == 0 {
            Seq::empty()
        } else {
            self.elements_upto((count - 1) as nat) + match self.nodes[count - 1] {
                NodeModel::Element(c) => seq![c] + self.descendants(c),
                _ => Seq::empty(),
            }
        }
    }

    /// The elements that stand in the trees at the root, in the order of
    /// the document.
    pub open spec fn all_elements(self) -> Seq<ElementRef> {
        self.elements_upto(self.nodes.len())
    }
}

/// The elements of two lists that meet a criterion are those of the first
/// list and then those of the second.
pub proof fn lemma_meeting_add(
    doc: DocumentModel,
    criterion: CriterionModel,
    a: Seq<ElementRef>,
    b: Seq<ElementRef>,
)
    ensures
        meeting(doc, criterion, a + b) == meeting(doc, criterion, a) + meeting(doc, criterion, b),
    decreases b.len(),
{
    if b.len() == 0 {
        assert(a + b == a);
        assert(meeting(doc, criterion, a) + Seq::<ElementRef>::empty() == meeting(
            doc,
            criterion,
            a,
        ));
    } else {
        assert((a + b).drop_last() == a + b.drop_last());
        assert((a + b).last() == b.last());
        lemma_meeting_add(doc, criterion, a, b.drop_last());
        let head = meeting(doc, criterion, a);
        let tail = meeting(doc, criterion, b.drop_last());
        if meets(doc, criterion, b.last()) {
            assert((head + tail).push(b.last()) == head + tail.push(b.last()));
        }
    }
}

/// The first element of two lists that meets a criterion is that of the
/// first list, or else that of the second.
pub proof fn lemma_first_add(
    doc: DocumentModel,
    criterion: CriterionModel,
    a: Seq<ElementRef>,
    b: Seq<ElementRef>,
)
    ensures
        first_meeting(doc, criterion, a + b) == match first_meeting(doc, criterion, a) {
            Some(e) => Some(e),
            None => first_meeting(doc, criterion, b),
        },
    decreases a.len(),
{
    if a.len() == 0 {
        assert(a + b == b);
    } else {
        assert((a + b)[0] == a[0]);
        assert((a + b).drop_first() == a.drop_first() + b);
        lemma_first_add(doc, criterion, a.drop_first(), b);
    }
}

/// The first element of a list that meets a criterion stands in the list,
/// meets the criterion, and no element before it does; where there is
/// none, no element of the list meets the criterion.
pub proof fn lemma_first_meeting(doc: DocumentModel, criterion: CriterionModel, list: Seq<ElementRef>)
    ensures
        match first_meeting(doc, criterion, list) {
            Some(e) => exists|i: int|
                0 <= i < list.len() && list[i] == e && meets(doc, criterion, e) && forall|j: int|
                    0 <= j < i ==> !meets(doc, criterion, #[trigger] list[j]),
            None => forall|j: int| 0 <= j < list.len() ==> !meets(doc, criterion, #[trigger] list[j]),
        },
    decreases list.len(),
{
    if list.len() == 0 {
    } else if meets(doc, criterion, list[0]) {
        assert(list[0] == list[0] && forall|j: int|
            0 <= j < 0 ==> !meets(doc, criterion, #[trigger] list[j]));
    } else {
        let rest = list.drop_first();
        lemma_first_meeting(doc, criterion, rest);
        match first_meeting(doc, criterion, rest) {
            Some(e) => {
                let i = choose|i: int|
                    0 <= i < rest.len() && rest[i] == e && meets(doc, criterion, e) && forall|j: int|
                        0 <= j < i ==> !meets(doc, criterion, #[trigger] rest[j]);
                assert(list[i + 1] == e);
                assert forall|j: int| 0 <= j < i + 1 implies !meets(
                    doc,
                    criterion,
                    #[trigger] list[j],
                ) by {
                    if j > 0 {
                        assert(list[j] == rest[j - 1]);
                    }
                }
            },
            None => {
                assert forall|j: int| 0 <= j < list.len() implies !meets(
                    doc,
                    criterion,
                    #[trigger] list[j],
                ) by {
                    if j > 0 {
                        assert(list[j] == rest[j - 1]);
                    }
                }
            },
        }
    }
}

/// Whether the element `e` meets `criterion`.
pub fn check(doc: &HtmlDocument, criterion: &Criterion, e: ElementRef) -> (r: bool)
    requires
        doc.wf(),
        doc@.has(e),
    ensures
        r == meets(doc@, criterion@, e),
{
    match criterion {
        Criterion::Selector(selector) => selector.compare(doc, &e),
        Criterion::Class(name) => doc.elements[e.index].has_class(name),
        Criterion::Id(id) => match e.id(doc) {
            Some(found) => str_eq(found.as_str(), id),
            None => false,
        },
        Criterion::Tag(tag) => e.tag_name(doc).same(tag),
    }
}

/// Adds to `found` the elements below `e` that meet `criterion`, in the
/// order of the document.
pub fn collect_below(
    doc: &HtmlDocument,
    e: ElementRef,
    criterion: &Criterion,
    found: &mut Vec<ElementRef>,
)
    requires
        doc.wf(),
        doc@.has(e),
    ensures
        final(found)@ == old(found)@ + meeting(doc@, criterion@, doc@.descendants(e)),
    decreases doc@.height(e),
{
    let nodes = &doc.elements[e.index].child_nodes;
    let mut i: usize = 0;
    proof {
        assert(old(found)@ + Seq::<ElementRef>::empty() == old(found)@);
    }
    while i < nodes.len()
        invariant
            doc.wf(),
            doc@.has(e),
            nodes_view(nodes@) == doc@.child_nodes(e),
            i <= nodes.len(),
            found@ == old(found)@ + meeting(doc@, criterion@, doc@.descendants_upto(e, i as nat)),
        decreases nodes.len() - i,
    {
        let ghost before = doc@.descendants_upto(e, i as nat);
        assert(doc@.child_nodes(e)[i as int] == nodes[i as int]@);
        match &nodes[i] {
            HtmlNode::Element(child) => {
                proof {
                    doc@.lemma_child(e, i as int);
                }
                let ghost so_far = found@;
                if check(doc, criterion, *child) {
                    found.push(*child);
                }
                // Search the children of the child.
                collect_below(doc, *child, criterion, found);
                proof {
                    let below = doc@.descendants(*child);
                    lemma_meeting_add(doc@, criterion@, before, seq![*child] + below);
                    lemma_meeting_add(doc@, criterion@, seq![*child], below);
                    let one = seq![*child];
                    assert(one.drop_last() =~= Seq::empty());
                    assert(one.last() == *child);
                    assert(meeting(doc@, criterion@, one.drop_last()) =~= Seq::empty());
                    if meets(doc@, criterion@, *child) {
                        assert(meeting(doc@, criterion@, one) =~= seq![*child]);
                        assert(so_far.push(*child) + meeting(doc@, criterion@, below) =~= so_far
                            + (meeting(doc@, criterion@, one) + meeting(doc@, criterion@, below)));
                    } else {
                        assert(meeting(doc@, criterion@, one) =~= Seq::empty());
                        assert(so_far + meeting(doc@, criterion@, below) =~= so_far + (meeting(
                            doc@,
                            criterion@,
                            one,
                        ) + meeting(doc@, criterion@, below)));
                    }
                    assert(found@ =~= old(found)@ + (meeting(doc@, criterion@, before) + (meeting(
                        doc@,
                        criterion@,
                        one,
                    ) + meeting(doc@, criterion@, below))));
                }
            },
            _ => {
                assert(before + Seq::<ElementRef>::empty() == before);
            },
        }
        i += 1;
    }
}

/// The first element below `e`, in the order of the document, that meets
/// `criterion`.
pub fn find_below(doc: &HtmlDocument, e: ElementRef, criterion: &Criterion) -> (found: Option<
    ElementRef,
>)
    requires
        doc.wf(),
        doc@.has(e),
    ensures
        found == first_meeting(doc@, criterion@, doc@.descendants(e)),
    decreases doc@.height(e),
{
    let nodes = &doc.elements[e.index].child_nodes;
    let mut i: usize = 0;
    while i < nodes.len()
        invariant
            doc.wf(),
            doc@.has(e),
            nodes_view(nodes@) == doc@.child_nodes(e),
            i <= nodes.len(),
            first_meeting(doc@, criterion@, doc@.descendants_upto(e, i as nat)) is None,
        decreases nodes.len() - i,
    {
        let ghost before = doc@.descendants_upto(e, i as nat);
        assert(doc@.child_nodes(e)[i as int] == nodes[i as int]@);
        match &nodes[i] {
            HtmlNode::Element(child) => {
                proof {
                    doc@.lemma_child(e, i as int);
                    let below = doc@.descendants(*child);
                    lemma_first_add(doc@, criterion@, before, seq![*child] + below);
                    lemma_first_add(doc@, criterion@, seq![*child], below);
                    let one = seq![*child];
                    assert(one[0] == *child);
                    assert(one.drop_first() =~= Seq::empty());
                    assert(first_meeting(doc@, criterion@, one.drop_first()) is None);
                    assert(first_meeting(doc@, criterion@, one) == if meets(
                        doc@,
                        criterion@,
                        *child,
                    ) {
                        Some(*child)
                    } else {
                        None
                    });
                    assert(doc@.descendants_upto(e, (i + 1) as nat) == before + (one + below));
                }
                if check(doc, criterion, *child) {
                    proof {
                        lemma_first_extends(
                            doc@,
                            criterion@,
                            doc@.descendants_upto(e, (i + 1) as nat),
                            e,
                            (i + 1) as nat,
                        );
                    }
                    return Some(*child);
                }
                let inner = find_below(doc, *child, criterion);
                if inner.is_some() {
                    proof {
                        lemma_first_extends(
                            doc@,
                            criterion@,
                            doc@.descendants_upto(e, (i + 1) as nat),
                            e,
                            (i + 1) as nat,
                        );
                    }
                    return inner;
                }
            },
            _ => {
                assert(before + Seq::<ElementRef>::empty() == before);
            },
        }
        i += 1;
    }
    None
}

/// The first element that meets a criterion within the first child nodes of
/// an element is the first that does so below the element.
pub proof fn lemma_first_extends(
    doc: DocumentModel,
    criterion: CriterionModel,
    part: Seq<ElementRef>,
    e: ElementRef,
    count: nat,
)
    requires
        doc.wf(),
        doc.has(e),
        count <= doc.child_nodes(e).len(),
        part == doc.descendants_upto(e, count),
        first_meeting(doc, criterion, part) is Some,
    ensures
        first_meeting(doc, criterion, doc.descendants(e)) == first_meeting(doc, criterion, part),
    decreases doc.child_nodes(e).len() - count,
{
    if count < doc.child_nodes(e).len() {
        let next = doc.descendants_upto(e, count + 1);
        let added = match doc.child_nodes(e)[count as int] {
            NodeModel::Element(c) => seq![c] + doc.descendants_upto(c, doc.child_nodes(c).len()),
            _ => Seq::empty(),
        };
        assert(next == part + added);
        lemma_first_add(doc, criterion, part, added);
        lemma_first_extends(doc, criterion, next, e, count + 1);
    }
}

/// What the selector that `text` spells asks of an element. A text that
/// spells no selector asks nothing that an element could meet.
pub open spec fn selector_of(text: Seq<char>) -> Option<CriterionModel> {
    match parse_spec(text) {
        Ok(store) => Some(CriterionModel::Selector(store.host)),
        Err(_) => None,
    }
}

/// Whether `e` meets the selector that `text` spells.
pub open spec fn selects(doc: DocumentModel, text: Seq<char>, e: ElementRef) -> bool {
    match selector_of(text) {
        Some(criterion) => meets(doc, criterion, e),
        None => false,
    }
}

/// The elements of `list` that meet the selector that `text` spells.
pub open spec fn selected(doc: DocumentModel, text: Seq<char>, list: Seq<ElementRef>) -> Seq<
    ElementRef,
> {
    match selector_of(text) {
        Some(criterion) => meeting(doc, criterion, list),
        None => Seq::empty(),
    }
}

/// The first element of `list` that meets the selector that `text` spells.
pub open spec fn first_selected(doc: DocumentModel, text: Seq<char>, list: Seq<ElementRef>) ->
    Option<ElementRef> {
    match selector_of(text) {
        Some(criterion) => first_meeting(doc, criterion, list),
        None => None,
    }
}

/// Adds to `found` the elements in the trees at the root that meet
/// `criterion`, in the order of the document.
fn collect_all(doc: &HtmlDocument, criterion: &Criterion) -> (found: Vec<ElementRef>)
    requires
        doc.wf(),
    ensures
        found@ == meeting(doc@, criterion@, doc@.all_elements()),
{
    let mut found: Vec<ElementRef> = Vec::new();
    let mut i: usize = 0;
    while i < doc.nodes.len()
        invariant
            doc.wf(),
            i <= doc.nodes.len(),
            found@ == meeting(doc@, criterion@, doc@.elements_upto(i as nat)),
        decreases doc.nodes.len() - i,
    {
        let ghost before = doc@.elements_upto(i as nat);
        assert(doc@.nodes[i as int] == doc.nodes[i as int]@);
        match &doc.nodes[i] {
            HtmlNode::Element(child) => {
                assert(doc@.children_wf(doc@.nodes, None));
                let ghost so_far = found@;
                if check(doc, criterion, *child) {
                    found.push(*child);
                }
                collect_below(doc, *child, criterion, &mut found);
                proof {
                    let below = doc@.descendants(*child);
                    lemma_meeting_add(doc@, criterion@, before, seq![*child] + below);
                    lemma_meeting_add(doc@, criterion@, seq![*child], below);
                    let one = seq![*child];
                    assert(one.drop_last() =~= Seq::empty());
                    assert(one.last() == *child);
                    assert(meeting(doc@, criterion@, one.drop_last()) =~= Seq::empty());
                    if meets(doc@, criterion@, *child) {
                        assert(meeting(doc@, criterion@, one) =~= seq![*child]);
                    } else {
                        assert(meeting(doc@, criterion@, one) =~= Seq::empty());
                    }
                    assert(found@ =~= meeting(doc@, criterion@, before) + (meeting(
                        doc@,
                        criterion@,
                        one,
                    ) + meeting(doc@, criterion@, below)));
                }
            },
            _ => {
                assert(before + Seq::<ElementRef>::empty() == before);
            },
        }
        i += 1;
    }
    found
}

/// The first element in the trees at the root that meets `criterion`.
fn find_first(doc: &HtmlDocument, criterion: &Criterion) -> (found: Option<ElementRef>)
    requires
        doc.wf(),
    ensures
        found == first_meeting(doc@, criterion@, doc@.all_elements()),
{
    let mut i: usize = 0;
    while i < doc.nodes.len()
        invariant
            doc.wf(),
            i <= doc.nodes.len(),
            first_meeting(doc@, criterion@, doc@.elements_upto(i as nat)) is None,
        decreases doc.nodes.len() - i,
    {
        let ghost before = doc@.elements_upto(i as nat);
        assert(doc@.nodes[i as int] == doc.nodes[i as int]@);
        match &doc.nodes[i] {
            HtmlNode::Element(child) => {
                assert(doc@.children_wf(doc@.nodes, None));
                proof {
                    let below = doc@.descendants(*child);
                    lemma_first_add(doc@, criterion@, before, seq![*child] + below);
                    lemma_first_add(doc@, criterion@, seq![*child], below);
                    let one = seq![*child];
                    assert(one[0] == *child);
                    assert(one.drop_first() =~= Seq::empty());
                    assert(first_meeting(doc@, criterion@, one.drop_first()) is None);
                    assert(first_meeting(doc@, criterion@, one) == if meets(
                        doc@,
                        criterion@,
                        *child,
                    ) {
                        Some(*child)
                    } else {
                        None
                    });
                    assert(doc@.elements_upto((i + 1) as nat) == before + (one + below));
                }
                let here = if check(doc, criterion, *child) {
                    Some(*child)
                } else {
                    find_below(doc, *child, criterion)
                };
                if here.is_some() {
                    proof {
                        lemma_first_extends_root(
                            doc@,
                            criterion@,
                            doc@.elements_upto((i + 1) as nat),
                            (i + 1) as nat,
                        );
                    }
                    return here;
                }
            },
            _ => {
                assert(before + Seq::<ElementRef>::empty() == before);
            },
        }
        i += 1;
    }
    None
}

/// The first element that meets a criterion within the first trees at the
/// root is the first that does so in the document.
pub proof fn lemma_first_extends_root(
    doc: DocumentModel,
    criterion: CriterionModel,
    part: Seq<ElementRef>,
    count: nat,
)
    requires
        count <= doc.nodes.len(),
        part == doc.elements_upto(count),
        first_meeting(doc, criterion, part) is Some,
    ensures
        first_meeting(doc, criterion, doc.all_elements()) == first_meeting(doc, criterion, part),
    decreases doc.nodes.len() - count,
{
    if count < doc.nodes.len() {
        let next = doc.elements_upto(count + 1);
        let added = match doc.nodes[count as int] {
            NodeModel::Element(c) => seq![c] + doc.descendants(c),
            _ => Seq::empty(),
        };
        assert(next == part + added);
        lemma_first_add(doc, criterion, part, added);
        lemma_first_extends_root(doc, criterion, next, count + 1);
    }
}

impl ElementRef {
    /// Check if element matches a CSS style selector. A string that is no
    /// selector is matched by no element.
    pub fn matches(&self, doc: &HtmlDocument, selector: &str) -> (r: bool)
        requires
            doc.wf(),
            doc@.has(*self),
        ensures
            r == selects(doc@, selector@, *self),
    {
        match parse_selector(selector) {
            Ok(selector_store) => selector_store.host().compare(doc, self),
            Err(_) => false,
        }
    }

    /// Traverse the element and find the first element below it that
    /// matches a selector, if it exists.
    pub fn query_selector(&self, doc: &HtmlDocument, selector: &str) -> (found: Option<ElementRef>)
        requires
            doc.wf(),
            doc@.has(*self),
        ensures
            found == first_selected(doc@, selector@, doc@.descendants(*self)),
    {
        match parse_selector(selector) {
            Ok(store) => find_below(doc, *self, &Criterion::Selector(store.host())),
            Err(_) => None,
        }
    }

    /// Traverse the element and find all the elements below it that match a
    /// selector.
    pub fn query_selector_all(&self, doc: &HtmlDocument, selector: &str) -> (found: Vec<
        ElementRef,
    >)
        requires
            doc.wf(),
            doc@.has(*self),
        ensures
            found@ == selected(doc@, selector@, doc@.descendants(*self)),
    {
        let mut found: Vec<ElementRef> = Vec::new();
        match parse_selector(selector) {
            Ok(store) => {
                collect_below(doc, *self, &Criterion::Selector(store.host()), &mut found);
                assert(Seq::<ElementRef>::empty() + meeting(
                    doc@,
                    CriterionModel::Selector(store@.host),
                    doc@.descendants(*self),
                ) =~= meeting(
                    doc@,
                    CriterionModel::Selector(store@.host),
                    doc@.descendants(*self),
                ));
            },
            Err(_) => {},
        }
        found
    }

    /// Traverse the element and return all elements below it that have a
    /// particular class.
    pub fn get_elements_by_class_name(&self, doc: &HtmlDocument, class_name: &str) -> (found: Vec<
        ElementRef,
    >)
        requires
            doc.wf(),
            doc@.has(*self),
        ensures
            found@ == meeting(
                doc@,
                CriterionModel::Class(class_name@),
                doc@.descendants(*self),
            ),
    {
        let mut found: Vec<ElementRef> = Vec::new();
        collect_below(doc, *self, &Criterion::Class(class_name), &mut found);
        assert(Seq::<ElementRef>::empty() + found@ =~= found@);
        found
    }

    /// Return the first element below this one that has a specified id, if
    /// it exists.
    pub fn get_element_by_id(&self, doc: &HtmlDocument, id: &str) -> (found: Option<ElementRef>)
        requires
            doc.wf(),
            doc@.has(*self),
        ensures
            found == first_meeting(doc@, CriterionModel::Id(id@), doc@.descendants(*self)),
    {
        find_below(doc, *self, &Criterion::Id(id))
    }

    /// Return all elements below this one that have a specified tag name.
    pub fn get_elements_by_tag_name(&self, doc: &HtmlDocument, tag: &HtmlTag) -> (found: Vec<
        ElementRef,
    >)
        requires
            doc.wf(),
            doc@.has(*self),
        ensures
            found@ == meeting(doc@, CriterionModel::Tag(tag@), doc@.descendants(*self)),
    {
        let mut found: Vec<ElementRef> = Vec::new();
        collect_below(doc, *self, &Criterion::Tag(tag), &mut found);
        assert(Seq::<ElementRef>::empty() + found@ =~= found@);
        found
    }
}

impl HtmlDocument {
    /// Traverse the document and find the first element that matches a
    /// selector, if it exists.
    pub fn query_selector(&self, selector: &str) -> (found: Option<ElementRef>)
        requires
            self.wf(),
        ensures
            found == first_selected(self@, selector@, self@.all_elements()),
    {
        match parse_selector(selector) {
            Ok(store) => find_first(self, &Criterion::Selector(store.host())),
            Err(_) => None,
        }
    }

    /// Traverse the document and find all the elements that match a
    /// selector.
    pub fn query_selector_all(&self, selector: &str) -> (found: Vec<ElementRef>)
        requires
            self.wf(),
        ensures
            found@ == selected(self@, selector@, self@.all_elements()),
    {
        match parse_selector(selector) {
            Ok(store) => collect_all(self, &Criterion::Selector(store.host())),
            Err(_) => Vec::new(),
        }
    }

    /// Traverse the document and return all elements that have a particular
    /// class.
    pub fn get_elements_by_class_name(&self, class_name: &str) -> (found: Vec<ElementRef>)
        requires
            self.wf(),
        ensures
            found@ == meeting(self@, CriterionModel::Class(class_name@), self@.all_elements()),
    {
        collect_all(self, &Criterion::Class(class_name))
    }

    /// Return the first element in the document that has a specified id, if
    /// it exists.
    pub fn get_element_by_id(&self, id: &str) -> (found: Option<ElementRef>)
        requires
            self.wf(),
        ensures
            found == first_meeting(self@, CriterionModel::Id(id@), self@.all_elements()),
    {
        find_first(self, &Criterion::Id(id))
    }

    /// Return all elements in the document that have a specified tag name.
    pub fn get_elements_by_tag_name(&self, tag: &HtmlTag) -> (found: Vec<ElementRef>)
        requires
            self.wf(),
        ensures
            found@ == meeting(self@, CriterionModel::Tag(tag@), self@.all_elements()),
    {
        collect_all(self, &Criterion::Tag(tag))
    }
}

impl DocumentModel {
    /// What stands below a child of an element, or is that child, stands
    /// below the element.
    pub proof fn lemma_ancestor_down(self, e: ElementRef, c: ElementRef, x: ElementRef)
        requires
            self.wf(),
            self.has(x),
            self.has(c),
            self.parent(c) == Some(e),
            self.ancestor_or_self(c, x),
        ensures
            self.ancestor(e, x),
        decreases self.depth(x),
    {
        if x != c {
            let q = self.parent(x)->0;
            self.lemma_parent_depth(x);
            self.lemma_ancestor_down(e, c, q);
        } else {
            self.lemma_parent_depth(c);
        }
    }

    /// The elements below an element within its first child nodes are among
    /// those within more of its child nodes.
    pub proof fn lemma_descendants_grow(self, e: ElementRef, fewer: nat, more: nat, x: ElementRef)
        requires
            self.wf(),
            self.has(e),
            fewer <= more <= self.child_nodes(e).len(),
            self.descendants_upto(e, fewer).contains(x),
        ensures
            self.descendants_upto(e, more).contains(x),
        decreases more,
    {
        if fewer < more {
            self.lemma_descendants_grow(e, fewer, (more - 1) as nat, x);
            let before = self.descendants_upto(e, (more - 1) as nat);
            let i = choose|i: int| 0 <= i < before.len() && before[i] == x;
            assert(self.descendants_upto(e, more)[i] == x);
        }
    }

    /// Every element in the list of the elements below an element belongs
    /// to the document and has that element for an ancestor.
    pub proof fn lemma_descendants_below(self, e: ElementRef, count: nat, x: ElementRef)
        requires
            self.wf(),
            self.has(e),
            count <= self.child_nodes(e).len(),
            self.descendants_upto(e, count).contains(x),
        ensures
            self.has(x),
            self.ancestor(e, x),
        decreases self.height(e), count,
    {
        let list = self.descendants_upto(e, count);
        let i = choose|i: int| 0 <= i < list.len() && list[i] == x;
        if count > 0 {
            let before = self.descendants_upto(e, (count - 1) as nat);
            if i < before.len() {
                assert(before[i] == x);
                self.lemma_descendants_below(e, (count - 1) as nat, x);
            } else {
                match self.child_nodes(e)[count - 1] {
                    NodeModel::Element(c) => {
                        self.lemma_child(e, count - 1);
                        let below = self.descendants(c);
                        let added = seq![c] + below;
                        assert(list == before + added);
                        let j = i - before.len();
                        assert(added[j] == x);
                        if j == 0 {
                            assert(x == c);
                            self.lemma_ancestor_down(e, c, c);
                        } else {
                            assert(below[j - 1] == x);
                            self.lemma_descendants_below(c, self.child_nodes(c).len(), x);
                            let q = self.parent(x)->0;
                            self.lemma_parent_depth(x);
                            self.lemma_ancestor_down(e, c, q);
                            assert(self.ancestor_or_self(e, q));
                        }
                    },
                    _ => {
                        assert(list == before + Seq::<ElementRef>::empty());
                    },
                }
            }
        }
    }

    /// What stands below an element that stands below another stands below
    /// that other element.
    pub proof fn lemma_descendants_nest(
        self,
        e: ElementRef,
        count: nat,
        q: ElementRef,
        y: ElementRef,
    )
        requires
            self.wf(),
            self.has(e),
            count <= self.child_nodes(e).len(),
            self.descendants_upto(e, count).contains(q),
            self.has(q),
            self.descendants(q).contains(y),
        ensures
            self.descendants_upto(e, count).contains(y),
        decreases self.height(e), count,
    {
        let list = self.descendants_upto(e, count);
        let i = choose|i: int| 0 <= i < list.len() && list[i] == q;
        if count > 0 {
            let before = self.descendants_upto(e, (count - 1) as nat);
            if i < before.len() {
                assert(before[i] == q);
                self.lemma_descendants_nest(e, (count - 1) as nat, q, y);
                self.lemma_descendants_grow(e, (count - 1) as nat, count, y);
            } else {
                match self.child_nodes(e)[count - 1] {
                    NodeModel::Element(c) => {
                        self.lemma_child(e, count - 1);
                        let below = self.descendants(c);
                        let added = seq![c] + below;
                        assert(list == before + added);
                        let j = i - before.len();
                        assert(added[j] == q);
                        if j > 0 {
                            assert(below[j - 1] == q);
                            self.lemma_descendants_nest(c, self.child_nodes(c).len(), q, y);
                        }
                        let k = choose|k: int| 0 <= k < below.len() && below[k] == y;
                        assert(list[before.len() + 1 + k] == y);
                    },
                    _ => {
                        assert(list == before + Seq::<ElementRef>::empty());
                    },
                }
            }
        }
    }

    /// A child of an element is in the list of the elements below it.
    pub proof fn lemma_child_descends(self, x: ElementRef)
        requires
            self.wf(),
            self.has(x),
            self.parent(x) is Some,
        ensures
            self.descendants(self.parent(x)->0).contains(x),
    {
        let q = self.parent(x)->0;
        self.lemma_parent_depth(x);
        self.lemma_child_position(x);
        let j = position(self.child_nodes(q), x);
        let upto = self.descendants_upto(q, (j + 1) as nat);
        let before = self.descendants_upto(q, j as nat);
        assert(upto == before + (seq![x] + self.descendants(x)));
        assert(upto[before.len() as int] == x);
        self.lemma_descendants_grow(q, (j + 1) as nat, self.child_nodes(q).len(), x);
    }

    /// Every element that has `e` for an ancestor is in the list of the
    /// elements below `e`.
    pub proof fn lemma_below_descends(self, e: ElementRef, x: ElementRef)
        requires
            self.wf(),
            self.has(e),
            self.has(x),
            self.ancestor(e, x),
        ensures
            self.descendants(e).contains(x),
        decreases self.depth(x),
    {
        let q = self.parent(x)->0;
        self.lemma_parent_depth(x);
        self.lemma_child_descends(x);
        if q != e {
            self.lemma_below_descends(e, q);
            self.lemma_descendants_nest(e, self.child_nodes(e).len(), q, x);
        }
    }

    /// The elements below an element are the elements that it contains: the
    /// list of them holds an element exactly where the element has `e` for
    /// an ancestor.
    pub proof fn lemma_descendants(self, e: ElementRef, x: ElementRef)
        requires
            self.wf(),
            self.has(e),
        ensures
            self.descendants(e).contains(x) <==> self.has(x) && self.ancestor(e, x),
    {
        if self.descendants(e).contains(x) {
            self.lemma_descendants_below(e, self.child_nodes(e).len(), x);
        }
        if self.has(x) && self.ancestor(e, x) {
            self.lemma_below_descends(e, x);
        }
    }
}

} // verus!
