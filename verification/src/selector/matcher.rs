//! Matching a selector against an element of a document.
use vstd::prelude::*;
use crate::element::ElementRef;
use crate::forest::{element_children, value_of, DocumentModel};
use crate::selector::pattern::{
    selectors_view,
    PatternModel,
    PseudoClass,
    Selector,
    SelectorModel,
    SelectorPattern,
};
use crate::tree::HtmlDocument;

verus! {

/// The place of `e` in `list`, or the length of `list` where `e` is not in
/// it.
pub open spec fn place_in(list: Seq<ElementRef>, e: ElementRef) -> nat
    decreases list.len(),
{
    if list.len() == 0 {
        0
    } else if list[0] == e {
        0
    } else {
        1 + place_in(list.drop_first(), e)
    }
}

/// The elements among the children of the parent of `e` that stand before
/// `e`, in order. An element without a parent has none.
pub open spec fn earlier_siblings(doc: DocumentModel, e: ElementRef) -> Seq<ElementRef> {
    match doc.parent(e) {
        Some(p) => {
            let siblings = element_children(doc.child_nodes(p));
            siblings.take(place_in(siblings, e) as int)
        },
        None => Seq::empty(),
    }
}

/// Whether `e` meets the first `count` patterns of `selector`.
pub open spec fn matches_upto(
    doc: DocumentModel,
    selector: SelectorModel,
    e: ElementRef,
    count: nat,
) -> bool
    decreases selector, 0nat, count,
    when doc.wf() && doc.has(e) && count <= selector.patterns.len()
{
    if count == 0 {
        true
    } else {
        matches_upto(doc, selector, e, (count - 1) as nat) && matches_pattern(
            doc,
            selector.patterns[count - 1],
            e,
        )
    }
}

/// Whether `e` meets every pattern of `selector`.
pub open spec fn matches_selector(doc: DocumentModel, selector: SelectorModel, e: ElementRef) ->
    bool {
    matches_upto(doc, selector, e, selector.patterns.len())
}

/// Whether an ancestor of `e` meets `selector`.
pub open spec fn ancestor_matches(doc: DocumentModel, selector: SelectorModel, e: ElementRef) ->
    bool
    decreases selector, 1nat, doc.depth(e),
    when doc.wf() && doc.has(e)
{
    match doc.parent(e) {
        Some(p) => {
            proof {
                doc.lemma_parent_depth(e);
            }
            matches_upto(doc, selector, p, selector.patterns.len()) || ancestor_matches(
                doc,
                selector,
                p,
            )
        },
        None => false,
    }
}

/// Whether one of the first `count` elements of `list` meets `selector`.
pub open spec fn any_matches(
    doc: DocumentModel,
    selector: SelectorModel,
    list: Seq<ElementRef>,
    count: nat,
) -> bool
    decreases selector, 1nat, count,
    when doc.wf() && count <= list.len() && forall|i: int|
        0 <= i < list.len() ==> doc.has(#[trigger] list[i])
{
    if count == 0 {
        false
    } else {
        any_matches(doc, selector, list, (count - 1) as nat) || matches_upto(
            doc,
            selector,
            list[count - 1],
            selector.patterns.len(),
        )
    }
}

/// Whether `e` meets one of the first `count` selectors of `group`.
pub open spec fn matches_any(
    doc: DocumentModel,
    group: Seq<SelectorModel>,
    e: ElementRef,
    count: nat,
) -> bool
    decreases group, 0nat, count,
    when doc.wf() && doc.has(e) && count <= group.len()
{
    if count == 0 {
        false
    } else {
        matches_any(doc, group, e, (count - 1) as nat) || matches_upto(
            doc,
            group[count - 1],
            e,
            group[count - 1].patterns.len(),
        )
    }
}

/// Whether `e` meets `pattern`.
///
/// A tag, a class, an id or an attribute is met by an element that has it;
/// an attribute pattern with a value asks for that value. A descendant
/// relation is met where the element meets the second selector and one of
/// its ancestors the first; a child relation, where its parent meets the
/// first. An adjacent sibling relation asks this of the element that stands
/// directly before it among the elements of its parent, a general sibling
/// relation of any element that stands before it there. A group is met
/// where one of its selectors is.
pub open spec fn matches_pattern(doc: DocumentModel, pattern: PatternModel, e: ElementRef) -> bool
    decreases pattern, 0nat, 0nat,
    when doc.wf() && doc.has(e)
{
    let element = doc.element(e);
    match pattern {
        PatternModel::Universal => true,
        PatternModel::Tag(tag) => element.name == tag,
        PatternModel::Class(name) => element.class_list.contains(name),
        PatternModel::Id(id) => value_of(element.attributes, "id"@) == Some(id),
        PatternModel::Attribute(key, value) => match value_of(element.attributes, key) {
            None => false,
            Some(found) => value is None || value == Some(found),
        },
        PatternModel::Descendant(other, target) => matches_upto(
            doc,
            *target,
            e,
            target.patterns.len(),
        ) && ancestor_matches(doc, *other, e),
        PatternModel::Child(other, target) => matches_upto(doc, *target, e, target.patterns.len())
            && match doc.parent(e) {
            Some(p) => {
                proof {
                    doc.lemma_parent_depth(e);
                }
                matches_upto(doc, *other, p, other.patterns.len())
            },
            None => false,
        },
        PatternModel::AdjacentSibling(other, target) => {
            let earlier = earlier_siblings(doc, e);
            matches_upto(doc, *target, e, target.patterns.len()) && earlier.len() > 0 && {
                proof {
                    lemma_earlier_siblings(doc, e);
                }
                matches_upto(doc, *other, earlier.last(), other.patterns.len())
            }
        },
        PatternModel::GeneralSibling(other, target) => {
            let earlier = earlier_siblings(doc, e);
            matches_upto(doc, *target, e, target.patterns.len()) && {
                proof {
                    lemma_earlier_siblings(doc, e);
                }
                any_matches(doc, *other, earlier, earlier.len())
            }
        },
        PatternModel::Group(group) => matches_any(doc, group, e, group.len()),
        PatternModel::PseudoClass(class) => match class {
            PseudoClass::Root => doc.parent(e) is None,
            PseudoClass::Empty => doc.child_nodes(e).len() == 0,
        },
    }
}

/// The elements among the nodes of a well-formed element belong to the
/// document.
pub proof fn lemma_element_children(doc: DocumentModel, p: ElementRef, count: int)
    requires
        doc.wf(),
        doc.has(p),
        0 <= count <= doc.child_nodes(p).len(),
    ensures
        forall|i: int|
            0 <= i < element_children(doc.child_nodes(p).take(count)).len() ==> doc.has(
                #[trigger] element_children(doc.child_nodes(p).take(count))[i],
            ),
    decreases count,
{
    let nodes = doc.child_nodes(p).take(count);
    if count > 0 {
        lemma_element_children(doc, p, count - 1);
        assert(nodes.drop_last() == doc.child_nodes(p).take(count - 1));
        assert(nodes.last() == doc.child_nodes(p)[count - 1]);
        let before = element_children(nodes.drop_last());
        let list = element_children(nodes);
        if nodes.last() is Element {
            doc.lemma_child(p, count - 1);
            assert(list == before.push(nodes.last()->Element_0));
        } else {
            assert(list == before);
        }
        assert forall|i: int| 0 <= i < list.len() implies doc.has(#[trigger] list[i]) by {
            if i < before.len() {
                assert(list[i] == before[i]);
            }
        }
    } else {
        assert(element_children(nodes).len() == 0);
    }
}

/// The siblings that stand before an element belong to the document.
pub proof fn lemma_earlier_siblings(doc: DocumentModel, e: ElementRef)
    requires
        doc.wf(),
        doc.has(e),
    ensures
        forall|i: int|
            0 <= i < earlier_siblings(doc, e).len() ==> doc.has(
                #[trigger] earlier_siblings(doc, e)[i],
            ),
{
    match doc.parent(e) {
        Some(p) => {
            doc.lemma_parent_depth(e);
            let nodes = doc.child_nodes(p);
            lemma_element_children(doc, p, nodes.len() as int);
            assert(nodes.take(nodes.len() as int) == nodes);
            let siblings = element_children(nodes);
            lemma_place_in(siblings, e);
        },
        None => {},
    }
}

/// The place of an element in a list is within the list or at its end.
pub proof fn lemma_place_in(list: Seq<ElementRef>, e: ElementRef)
    ensures
        place_in(list, e) <= list.len(),
        place_in(list, e) < list.len() ==> list[place_in(list, e) as int] == e,
        forall|i: int| 0 <= i < place_in(list, e) ==> list[i] != e,
    decreases list.len(),
{
    if list.len() > 0 && list[0] != e {
        lemma_place_in(list.drop_first(), e);
        assert forall|i: int| 0 <= i < place_in(list, e) implies list[i] != e by {
            if i > 0 {
                assert(list[i] == list.drop_first()[i - 1]);
            }
        }
    }
}

/// The place of `e` in `list`, or the length of `list` where `e` is not in
/// it.
fn find_place(list: &Vec<ElementRef>, e: ElementRef) -> (place: usize)
    ensures
        place == place_in(list@, e),
        place <= list.len(),
{
    let mut i: usize = 0;
    assert(list@.skip(0) == list@);
    while i < list.len()
        invariant
            i <= list.len(),
            place_in(list@, e) == i + place_in(list@.skip(i as int), e),
        decreases list.len() - i,
    {
        let ghost rest = list@.skip(i as int);
        assert(rest[0] == list@[i as int]);
        if list[i].index == e.index {
            return i;
        }
        assert(rest.drop_first() == list@.skip(i + 1));
        i += 1;
    }
    i
}

impl Selector {
    /// Whether an element meets the selector.
    pub fn compare(&self, doc: &HtmlDocument, element_ref: &ElementRef) -> (r: bool)
        requires
            doc.wf(),
            doc@.has(*element_ref),
        ensures
            r == matches_selector(doc@, self@, *element_ref),
        decreases self, 0nat,
    {
        let mut i: usize = 0;
        while i < self.patterns.len()
            invariant
                doc.wf(),
                doc@.has(*element_ref),
                i <= self.patterns.len(),
                self@.patterns.len() == self.patterns.len(),
                matches_upto(doc@, self@, *element_ref, i as nat),
            decreases self.patterns.len() - i,
        {
            assert(self@.patterns[i as int] == self.patterns[i as int]@);
            // Any failure short-circuits to false.
            if !self.patterns[i].compare(doc, element_ref) {
                assert(!matches_upto(doc@, self@, *element_ref, (i + 1) as nat));
                proof {
                    lemma_matches_upto_falls(
                        doc@,
                        self@,
                        *element_ref,
                        (i + 1) as nat,
                        self@.patterns.len(),
                    );
                }
                return false;
            }
            i += 1;
        }
        true
    }

    /// Whether an ancestor of an element meets the selector.
    fn compare_ancestors(&self, doc: &HtmlDocument, element_ref: &ElementRef) -> (r: bool)
        requires
            doc.wf(),
            doc@.has(*element_ref),
        ensures
            r == ancestor_matches(doc@, self@, *element_ref),
        decreases self, 1nat,
    {
        let mut current = *element_ref;
        loop
            invariant
                doc.wf(),
                doc@.has(current),
                ancestor_matches(doc@, self@, current) == ancestor_matches(
                    doc@,
                    self@,
                    *element_ref,
                ),
            decreases doc@.depth(current),
        {
            match doc.elements[current.index].parent {
                Some(parent_ref) => {
                    proof {
                        doc@.lemma_parent_depth(current);
                    }
                    if self.compare(doc, &parent_ref) {
                        return true;
                    }
                    // If the immediate parent does not match, go up one level.
                    current = parent_ref;
                },
                None => {
                    return false;
                },
            }
        }
    }

    /// Whether one of the first `count` elements of `list` meets the
    /// selector.
    fn compare_any(&self, doc: &HtmlDocument, list: &Vec<ElementRef>, count: usize) -> (r: bool)
        requires
            doc.wf(),
            count <= list.len(),
            forall|i: int| 0 <= i < list.len() ==> doc@.has(#[trigger] list@[i]),
        ensures
            r == any_matches(doc@, self@, list@, count as nat),
        decreases self, 1nat,
    {
        let mut i: usize = 0;
        while i < count
            invariant
                doc.wf(),
                i <= count <= list.len(),
                forall|j: int| 0 <= j < list.len() ==> doc@.has(#[trigger] list@[j]),
                !any_matches(doc@, self@, list@, i as nat),
            decreases count - i,
        {
            if self.compare(doc, &list[i]) {
                assert(any_matches(doc@, self@, list@, (i + 1) as nat));
                proof {
                    lemma_any_matches_stays(doc@, self@, list@, (i + 1) as nat, count as nat);
                }
                return true;
            }
            i += 1;
        }
        false
    }
}

/// Once an element fails a pattern of a selector, it fails the selector.
pub proof fn lemma_matches_upto_falls(
    doc: DocumentModel,
    selector: SelectorModel,
    e: ElementRef,
    failed: nat,
    count: nat,
)
    requires
        doc.wf(),
        doc.has(e),
        failed <= count <= selector.patterns.len(),
        !matches_upto(doc, selector, e, failed),
    ensures
        !matches_upto(doc, selector, e, count),
    decreases count,
{
    if failed < count {
        lemma_matches_upto_falls(doc, selector, e, failed, (count - 1) as nat);
    }
}

/// Once one element of a list meets a selector, some element of any longer
/// part of the list does.
pub proof fn lemma_any_matches_stays(
    doc: DocumentModel,
    selector: SelectorModel,
    list: Seq<ElementRef>,
    found: nat,
    count: nat,
)
    requires
        doc.wf(),
        found <= count <= list.len(),
        forall|i: int| 0 <= i < list.len() ==> doc.has(#[trigger] list[i]),
        any_matches(doc, selector, list, found),
    ensures
        any_matches(doc, selector, list, count),
    decreases count,
{
    if found < count {
        lemma_any_matches_stays(doc, selector, list, found, (count - 1) as nat);
    }
}

/// Once an element meets one selector of a group, it meets the group.
pub proof fn lemma_matches_any_stays(
    doc: DocumentModel,
    group: Seq<SelectorModel>,
    e: ElementRef,
    found: nat,
    count: nat,
)
    requires
        doc.wf(),
        doc.has(e),
        found <= count <= group.len(),
        matches_any(doc, group, e, found),
    ensures
        matches_any(doc, group, e, count),
    decreases count,
{
    if found < count {
        lemma_matches_any_stays(doc, group, e, found, (count - 1) as nat);
    }
}

impl SelectorPattern {
    /// Whether an element meets the pattern.
    pub fn compare(&self, doc: &HtmlDocument, element_ref: &ElementRef) -> (r: bool)
        requires
            doc.wf(),
            doc@.has(*element_ref),
        ensures
            r == matches_pattern(doc@, self@, *element_ref),
        decreases self, 0nat,
    {
        match self {
            // All elements match.
            SelectorPattern::Universal => true,
            SelectorPattern::Tag(tag) => element_ref.tag_name(doc).same(tag),
            SelectorPattern::Class(class_name) => doc.elements[element_ref.index].has_class(
                class_name.as_str(),
            ),
            SelectorPattern::Id(id) => match element_ref.id(doc) {
                Some(element_id) => *element_id == *id,
                None => false,
            },
            SelectorPattern::Attribute(key, value_opt) => {
                match element_ref.get_attribute(doc, key.as_str()) {
                    None => false,
                    Some(element_value) => match value_opt {
                        Some(s_value) => *s_value == *element_value,
                        None => true,
                    },
                }
            },
            SelectorPattern::Descendant(other, target) => {
                if !target.compare(doc, element_ref) {
                    return false;
                }
                other.compare_ancestors(doc, element_ref)
            },
            SelectorPattern::Child(other, target) => {
                if !target.compare(doc, element_ref) {
                    return false;
                }
                match element_ref.parent(doc) {
                    Some(parent_ref) => {
                        proof {
                            doc@.lemma_parent_depth(*element_ref);
                        }
                        other.compare(doc, &parent_ref)
                    },
                    None => false,
                }
            },
            SelectorPattern::AdjacentSibling(other, target) => {
                if !target.compare(doc, element_ref) {
                    return false;
                }
                match element_ref.parent(doc) {
                    None => false,
                    Some(parent_ref) => {
                        proof {
                            doc@.lemma_parent_depth(*element_ref);
                            lemma_earlier_siblings(doc@, *element_ref);
                        }
                        let siblings = parent_ref.children(doc);
                        let index = find_place(&siblings, *element_ref);
                        if index == 0 {
                            return false;
                        }
                        // The nearest element before.
                        let ghost earlier = earlier_siblings(doc@, *element_ref);
                        assert(earlier.last() == siblings@[index - 1]);
                        other.compare(doc, &siblings[index - 1])
                    },
                }
            },
            SelectorPattern::GeneralSibling(other, target) => {
                if !target.compare(doc, element_ref) {
                    return false;
                }
                match element_ref.parent(doc) {
                    None => {
                        assert(earlier_siblings(doc@, *element_ref).len() == 0);
                        false
                    },
                    Some(parent_ref) => {
                        proof {
                            doc@.lemma_parent_depth(*element_ref);
                            lemma_earlier_siblings(doc@, *element_ref);
                            lemma_element_children(
                                doc@,
                                parent_ref,
                                doc@.child_nodes(parent_ref).len() as int,
                            );
                            assert(doc@.child_nodes(parent_ref).take(
                                doc@.child_nodes(parent_ref).len() as int,
                            ) == doc@.child_nodes(parent_ref));
                        }
                        let siblings = parent_ref.children(doc);
                        let index = find_place(&siblings, *element_ref);
                        let found = other.compare_any(doc, &siblings, index);
                        proof {
                            lemma_any_matches_prefix(
                                doc@,
                                other@,
                                siblings@,
                                index as nat,
                                index as nat,
                            );
                        }
                        found
                    },
                }
            },
            SelectorPattern::Group(patterns) => {
                let mut i: usize = 0;
                let ghost group = selectors_view(*patterns);
                assert(decreases_to!(*self => *patterns));
                while i < patterns.len()
                    invariant
                        decreases_to!(*self => *patterns),
                        doc.wf(),
                        doc@.has(*element_ref),
                        i <= patterns.len(),
                        *self == SelectorPattern::Group(*patterns),
                        group == selectors_view(*patterns),
                        !matches_any(doc@, group, *element_ref, i as nat),
                    decreases patterns.len() - i,
                {
                    assert(group[i as int] == patterns[i as int]@);
                    assert(decreases_to!(*patterns => patterns[i as int]));
                    if patterns[i].compare(doc, element_ref) {
                        assert(matches_any(doc@, group, *element_ref, (i + 1) as nat));
                        proof {
                            lemma_matches_any_stays(
                                doc@,
                                group,
                                *element_ref,
                                (i + 1) as nat,
                                group.len(),
                            );
                        }
                        return true;
                    }
                    i += 1;
                }
                false
            },
            SelectorPattern::PseudoClass(class) => match class {
                PseudoClass::Root => element_ref.parent(doc).is_none(),
                PseudoClass::Empty => !element_ref.has_children(doc),
            },
        }
    }
}

/// Whether one of the first elements of a list meets a selector does not
/// depend on what follows them in the list.
pub proof fn lemma_any_matches_prefix(
    doc: DocumentModel,
    selector: SelectorModel,
    list: Seq<ElementRef>,
    length: nat,
    count: nat,
)
    requires
        doc.wf(),
        count <= length <= list.len(),
        forall|i: int| 0 <= i < list.len() ==> doc.has(#[trigger] list[i]),
    ensures
        any_matches(doc, selector, list, count) == any_matches(
            doc,
            selector,
            list.take(length as int),
            count,
        ),
    decreases count,
{
    let part = list.take(length as int);
    assert forall|i: int| 0 <= i < part.len() implies doc.has(#[trigger] part[i]) by {
        assert(part[i] == list[i]);
    }
    if count > 0 {
        lemma_any_matches_prefix(doc, selector, list, length, (count - 1) as nat);
        assert(part[count - 1] == list[count - 1]);
    }
}

} // verus!
