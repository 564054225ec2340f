//! Elements and the handles by which they are known.
use vstd::prelude::*;
use vstd::string::StringExecFns;
use crate::event::HtmlEventListener;
use crate::forest::{
    classes_of,
    element_children,
    has_key,
    holds,
    key_index,
    lemma_with_attribute,
    lemma_without_attribute,
    position,
    unique_keys,
    value_of,
    with_all,
    with_attribute,
    without_attribute,
    without_word,
    AttributeDataModel,
    Attributes,
    ElementModel,
};
use crate::html_node::{
    locus_of,
    nodes_view,
    ElementSpan,
    ElementSpanModel,
    HtmlNode,
    HtmlTextNode,
    NodeModel,
    Span,
};
use crate::tag::HtmlTag;
use crate::text::{
    chars_eq,
    chars_of,
    join,
    lowercase,
    split_ascii_whitespace,
    split_words,
    strings_view,
};
use crate::token::{opt_view, AttributeQuoteType, HtmlAttribute};
use crate::tree::{find_element, HtmlDocument};

verus! {

/// The handle of an element: its place in the document that holds it. Two
/// handles are equal when they name the same element.
#[derive(Clone, Copy, Debug, PartialEq, Eq, Structural)]
pub struct ElementRef {
    pub index: usize,
}

/// What is known of an attribute besides its name: its value, where it has
/// one, and how the value was quoted.
#[derive(Debug)]
pub struct AttributeData {
    pub data: Option<String>,
    pub _quote_type: AttributeQuoteType,
}

impl View for AttributeData {
    type V = AttributeDataModel;

    open spec fn view(&self) -> AttributeDataModel {
        AttributeDataModel { data: opt_view(self.data), quote_type: self._quote_type }
    }
}

/// The models of a list of attributes, in order.
pub open spec fn entries_view(entries: Seq<(String, AttributeData)>) -> Attributes {
    Seq::new(entries.len(), |i: int| (entries[i].0@, entries[i].1@))
}

/// An element of a document. Its children are nodes; the elements among
/// them, and its parent, are held by handle.
pub struct Element {
    pub name: HtmlTag,
    pub class_list: Vec<String>,
    pub attributes: Vec<(String, AttributeData)>,
    pub listeners: Vec<HtmlEventListener>,
    pub location: ElementSpan,
    pub child_nodes: Vec<HtmlNode>,
    pub parent: Option<ElementRef>,
}

impl View for Element {
    type V = ElementModel;

    open spec fn view(&self) -> ElementModel {
        ElementModel {
            name: self.name@,
            class_list: strings_view(self.class_list@),
            attributes: entries_view(self.attributes@),
            location: self.location@,
            child_nodes: nodes_view(self.child_nodes@),
            parent: self.parent,
        }
    }
}

impl Element {
    /// An element with the tag `name` that stands alone: without attributes,
    /// children or a place in a source.
    pub fn new(name: HtmlTag) -> (element: Element)
        ensures
            element@ == ElementModel::new(name@),
            element@.wf(),
    {
        let element = Element {
            name,
            attributes: Vec::new(),
            class_list: Vec::new(),
            listeners: Vec::new(),
            location: ElementSpan::empty(),
            child_nodes: Vec::new(),
            parent: None,
        };
        assert(element@.class_list =~= Seq::empty());
        assert(element@.attributes =~= Seq::empty());
        assert(element@.child_nodes =~= Seq::empty());
        assert(!has_key(element@.attributes, "class"@));
        element
    }

    /// The place of the attribute named `name`, where there is one.
    pub fn find_attribute(&self, name: &str) -> (found: Option<usize>)
        requires
            unique_keys(self@.attributes),
        ensures
            match found {
                Some(i) => has_key(self@.attributes, name@) && i == key_index(
                    self@.attributes,
                    name@,
                ) && i < self.attributes.len(),
                None => !has_key(self@.attributes, name@),
            },
    {
        let wanted = chars_of(name);
        let mut i: usize = 0;
        while i < self.attributes.len()
            invariant
                i <= self.attributes.len(),
                wanted@ == name@,
                unique_keys(self@.attributes),
                forall|j: int| 0 <= j < i ==> (#[trigger] self@.attributes[j]).0 != name@,
            decreases self.attributes.len() - i,
        {
            if chars_eq(&wanted, self.attributes[i].0.as_str()) {
                assert(self@.attributes[i as int].0 == name@);
                assert(has_key(self@.attributes, name@));
                let ghost k = key_index(self@.attributes, name@);
                assert(k == i) by {
                    if k != i {
                        assert(self@.attributes[k].0 != self@.attributes[i as int].0);
                    }
                }
                return Some(i);
            }
            i += 1;
        }
        None
    }

    /// Retrieve an attribute of the element: its value, where the attribute
    /// is there and has one.
    pub fn get_attribute(&self, name: &str) -> (value: Option<&String>)
        requires
            unique_keys(self@.attributes),
        ensures
            match value {
                Some(v) => value_of(self@.attributes, name@) == Some(v@),
                None => value_of(self@.attributes, name@) is None,
            },
    {
        match self.find_attribute(name) {
            Some(i) => {
                assert(self@.attributes[i as int].1 == self.attributes[i as int].1@);
                self.attributes[i].1.data.as_ref()
            },
            None => None,
        }
    }

    /// Sets the attribute named `key`, in its old place where the element
    /// had it before.
    fn put_attribute(&mut self, key: String, data: AttributeData)
        requires
            unique_keys(old(self)@.attributes),
        ensures
            unique_keys(final(self)@.attributes),
            final(self)@ == (ElementModel {
                attributes: with_attribute(old(self)@.attributes, key@, data@),
                ..old(self)@
            }),
    {
        proof {
            lemma_with_attribute(self@.attributes, key@, data@);
        }
        let ghost before = self@.attributes;
        match self.find_attribute(key.as_str()) {
            Some(i) => {
                self.attributes[i] = (key, data);
                assert(self@.attributes =~= before.update(i as int, (key@, data@)));
            },
            None => {
                self.attributes.push((key, data));
                assert(self@.attributes =~= before.push((key@, data@)));
            },
        }
    }

    /// Updates the class list. Useful whenever the class attribute changes
    /// directly.
    fn update_class_list(&mut self)
        requires
            unique_keys(old(self)@.attributes),
        ensures
            final(self)@ == old(self)@.with_attributes(old(self)@.attributes),
            final(self)@.wf(),
    {
        let list = match self.get_attribute("class") {
            Some(value) => split_words(value.as_str()),
            None => Vec::new(),
        };
        assert(strings_view(list@) =~= classes_of(self@.attributes));
        self.class_list = list;
    }

    /// Manually initialize the element to some set values: the attributes of
    /// an opening tag, a later one replacing an earlier one of the same
    /// name, and the span of the tag.
    pub fn init(&mut self, attributes: Vec<HtmlAttribute>, start_tag_span: Span)
        requires
            old(self)@.wf(),
        ensures
            final(self)@.wf(),
            final(self)@ == old(self)@.init(attribute_entries(attributes@), start_tag_span@),
    {
        let ghost all = attribute_entries(attributes@);
        let ghost start = self@.attributes;
        assert(all.skip(0) == all);
        for attribute in iter: attributes
            invariant
                iter.seq() == attributes@,
                all == attribute_entries(attributes@),
                unique_keys(self@.attributes),
                with_all(self@.attributes, all.skip(iter.index() as int)) == with_all(start, all),
                self@ == (ElementModel { attributes: self@.attributes, ..old(self)@ }),
        {
            let ghost rest = all.skip(iter.index() as int);
            assert(rest[0] == attribute_entry(attribute));
            assert(rest.drop_first() == all.skip(iter.index() + 1));
            self.put_attribute(
                attribute.key,
                AttributeData { data: attribute.value, _quote_type: attribute.quote_type },
            );
        }
        self.location.open_tag = start_tag_span;
        self.update_class_list();
    }

    /// Set an attribute on the element.
    pub fn set_attribute(&mut self, name: &str, value: &str)
        requires
            old(self)@.wf(),
        ensures
            final(self)@.wf(),
            final(self)@ == old(self)@.with_attributes(
                with_attribute(
                    old(self)@.attributes,
                    name@,
                    AttributeDataModel {
                        data: Some(value@),
                        quote_type: AttributeQuoteType::Double,
                    },
                ),
            ),
    {
        self.put_attribute(
            name.to_owned(),
            AttributeData { data: Some(value.to_owned()), _quote_type: AttributeQuoteType::Double },
        );
        self.update_class_list();
    }

    /// Remove an attribute from the element.
    pub fn remove_attribute(&mut self, qualified_name: &str)
        requires
            old(self)@.wf(),
        ensures
            final(self)@.wf(),
            final(self)@ == old(self)@.with_attributes(
                without_attribute(old(self)@.attributes, qualified_name@),
            ),
    {
        proof {
            lemma_without_attribute(self@.attributes, qualified_name@);
        }
        let ghost before = self@.attributes;
        match self.find_attribute(qualified_name) {
            Some(i) => {
                self.attributes.remove(i);
                assert(self@.attributes =~= before.remove(i as int));
            },
            None => {},
        }
        self.update_class_list();
    }

    /// Whether `class_name` is in the class list of the element.
    pub fn has_class(&self, class_name: &str) -> (r: bool)
        ensures
            r == self@.class_list.contains(class_name@),
    {
        let wanted = chars_of(class_name);
        let mut i: usize = 0;
        while i < self.class_list.len()
            invariant
                i <= self.class_list.len(),
                wanted@ == class_name@,
                forall|j: int| 0 <= j < i ==> (#[trigger] self@.class_list[j]) != class_name@,
            decreases self.class_list.len() - i,
        {
            if chars_eq(&wanted, self.class_list[i].as_str()) {
                assert(self@.class_list[i as int] == class_name@);
                return true;
            }
            i += 1;
        }
        false
    }

    /// Returns the class name of the element.
    pub fn class_name(&self) -> (name: String)
        ensures
            name@ == self@.class_name(),
    {
        join(&self.class_list)
    }

    /// Adds a new class to the class list of the element.
    pub fn add_class(&mut self, class_name: &str)
        requires
            old(self)@.wf(),
        ensures
            final(self)@.wf(),
            final(self)@ == old(self)@.add_class(class_name@),
    {
        let ghost before = self@;
        self.class_list.push(class_name.to_owned());
        assert(self@.class_list =~= before.class_list.push(class_name@));
        let value = join(&self.class_list);
        self.put_attribute(
            "class".to_owned(),
            AttributeData { data: Some(value), _quote_type: AttributeQuoteType::Double },
        );
        self.update_class_list();
    }

    /// Removes a class from the element class list if it exists.
    pub fn remove_class(&mut self, class_name: &str)
        requires
            old(self)@.wf(),
        ensures
            final(self)@.wf(),
            final(self)@ == old(self)@.remove_class(class_name@),
    {
        if self.find_attribute("class").is_none() {
            return ;
        }
        let ghost before = self@;
        let mut kept: Vec<String> = Vec::new();
        let wanted = chars_of(class_name);
        let mut i: usize = 0;
        assert(before.class_list.take(0) =~= Seq::empty());
        assert(strings_view(kept@) =~= Seq::empty());
        while i < self.class_list.len()
            invariant
                i <= self.class_list.len(),
                wanted@ == class_name@,
                self@ == before,
                strings_view(kept@) == without_word(before.class_list.take(i as int), class_name@),
            decreases self.class_list.len() - i,
        {
            let ghost done = strings_view(kept@);
            assert(before.class_list.take(i + 1).drop_last() =~= before.class_list.take(i as int));
            assert(before.class_list.take(i + 1).last() == self.class_list[i as int]@);
            if !chars_eq(&wanted, self.class_list[i].as_str()) {
                let class = self.class_list[i].clone();
                kept.push(class);
                assert(strings_view(kept@) =~= done.push(class@));
            }
            i += 1;
        }
        assert(before.class_list.take(i as int) =~= before.class_list);
        let value = join(&kept);
        self.put_attribute(
            "class".to_owned(),
            AttributeData { data: Some(value), _quote_type: AttributeQuoteType::Double },
        );
        self.update_class_list();
    }

    /// Return the ending of the element in its source.
    pub fn get_end(&self) -> (end: [usize; 2])
        ensures
            locus_of(end) == self@.end(),
    {
        match &self.location.close_tag {
            Some(span) => span.end,
            None => self.location.open_tag.end,
        }
    }
}

/// An attribute of a tag as an attribute of an element: its name with what
/// is known of it.
pub open spec fn attribute_entry(attribute: HtmlAttribute) -> (Seq<char>, AttributeDataModel) {
    (
        attribute.key@,
        AttributeDataModel { data: opt_view(attribute.value), quote_type: attribute.quote_type },
    )
}

/// The attributes of a tag as attributes of an element, in order.
pub open spec fn attribute_entries(attributes: Seq<HtmlAttribute>) -> Attributes {
    Seq::new(attributes.len(), |i: int| attribute_entry(attributes[i]))
}

impl ElementRef {
    /// Makes an element named `tag_name` in `doc`. The element stands
    /// alone until it is given a place.
    pub fn new(doc: &mut HtmlDocument, tag_name: &str) -> (e: ElementRef)
        requires
            old(doc).wf(),
        ensures
            final(doc).wf(),
            final(doc)@ == old(doc)@.create(ElementModel::new(lowercase(tag_name@))),
            e.index == old(doc)@.elements.len(),
            final(doc)@.has(e),
    {
        ElementRef::from(doc, HtmlTag::new(tag_name.to_owned()))
    }

    /// Makes an element with the tag `name` in `doc`.
    pub fn from(doc: &mut HtmlDocument, name: HtmlTag) -> (e: ElementRef)
        requires
            old(doc).wf(),
        ensures
            final(doc).wf(),
            final(doc)@ == old(doc)@.create(ElementModel::new(name@)),
            e.index == old(doc)@.elements.len(),
            final(doc)@.has(e),
    {
        doc.create(Element::new(name))
    }

    /// Makes an element with the tag `name`, the given attributes and the
    /// span of its opening tag in `doc`.
    pub fn init(
        doc: &mut HtmlDocument,
        name: HtmlTag,
        attributes: Vec<HtmlAttribute>,
        start_tag_span: Span,
    ) -> (e: ElementRef)
        requires
            old(doc).wf(),
        ensures
            final(doc).wf(),
            final(doc)@ == old(doc)@.create(
                ElementModel::parsed(name@, attribute_entries(attributes@), start_tag_span@),
            ),
            e.index == old(doc)@.elements.len(),
            final(doc)@.has(e),
            final(doc)@.detached(e),
    {
        let mut element = Element::new(name);
        element.init(attributes, start_tag_span);
        doc.create(element)
    }

    /// The element that the handle names.
    pub fn element<'a>(&self, doc: &'a HtmlDocument) -> (element: &'a Element)
        requires
            doc@.has(*self),
        ensures
            element@ == doc@.element(*self),
    {
        &doc.elements[self.index]
    }

    /// Returns the tagname of the element.
    pub fn tag_name<'a>(&self, doc: &'a HtmlDocument) -> (tag: &'a HtmlTag)
        requires
            doc@.has(*self),
        ensures
            tag@ == doc@.element(*self).name,
    {
        &doc.elements[self.index].name
    }

    /// Return the ending of the element in its source.
    pub fn get_end(&self, doc: &HtmlDocument) -> (end: [usize; 2])
        requires
            doc@.has(*self),
        ensures
            locus_of(end) == doc@.element(*self).end(),
    {
        doc.elements[self.index].get_end()
    }

    /// Returns the id of an element if it exists.
    pub fn id<'a>(&self, doc: &'a HtmlDocument) -> (id: Option<&'a String>)
        requires
            doc.wf(),
            doc@.has(*self),
        ensures
            match id {
                Some(v) => value_of(doc@.element(*self).attributes, "id"@) == Some(v@),
                None => value_of(doc@.element(*self).attributes, "id"@) is None,
            },
    {
        self.get_attribute(doc, "id")
    }

    /// Retrieve an attribute of the element.
    pub fn get_attribute<'a>(&self, doc: &'a HtmlDocument, name: &str) -> (value: Option<
        &'a String,
    >)
        requires
            doc.wf(),
            doc@.has(*self),
        ensures
            match value {
                Some(v) => value_of(doc@.element(*self).attributes, name@) == Some(v@),
                None => value_of(doc@.element(*self).attributes, name@) is None,
            },
    {
        assert(doc@.elements[self.index as int].wf());
        doc.elements[self.index].get_attribute(name)
    }

    /// Set an attribute on the element. Setting `class` makes the class list
    /// the words of the new value.
    pub fn set_attribute(&self, doc: &mut HtmlDocument, name: &str, value: &str)
        requires
            old(doc).wf(),
            old(doc)@.has(*self),
        ensures
            final(doc).wf(),
            final(doc)@ == old(doc)@.with_element(
                *self,
                old(doc)@.element(*self).set_attribute(name@, value@),
            ),
            name@ == "class"@ ==> final(doc)@.element(*self).class_list == split_ascii_whitespace(
                value@,
            ),
    {
        let ghost before = doc@;
        assert(before.elements[self.index as int].wf());
        doc.elements[self.index].set_attribute(name, value);
        proof {
            let element = before.element(*self).set_attribute(name@, value@);
            assert(doc@.elements =~= before.elements.update(self.index as int, element));
            before.lemma_with_element(*self, element);
            if name@ == "class"@ {
                before.element(*self).lemma_set_class(value@);
            }
        }
    }

    /// Remove an attribute from the element.
    pub fn remove_attribute(&self, doc: &mut HtmlDocument, qualified_name: &str)
        requires
            old(doc).wf(),
            old(doc)@.has(*self),
        ensures
            final(doc).wf(),
            final(doc)@ == old(doc)@.with_element(
                *self,
                old(doc)@.element(*self).remove_attribute(qualified_name@),
            ),
    {
        let ghost before = doc@;
        assert(before.elements[self.index as int].wf());
        doc.elements[self.index].remove_attribute(qualified_name);
        proof {
            let element = before.element(*self).remove_attribute(qualified_name@);
            assert(doc@.elements =~= before.elements.update(self.index as int, element));
            before.lemma_with_element(*self, element);
        }
    }

    /// Get the index of a child node.
    pub fn get_index_of(&self, doc: &HtmlDocument, child: &ElementRef) -> (index: Option<usize>)
        requires
            doc.wf(),
            doc@.has(*self),
        ensures
            match index {
                Some(j) => holds(doc@.child_nodes(*self), *child) && j == position(
                    doc@.child_nodes(*self),
                    *child,
                ) && j < doc@.child_nodes(*self).len(),
                None => !holds(doc@.child_nodes(*self), *child),
            },
    {
        let found = find_element(&doc.elements[self.index].child_nodes, *child);
        proof {
            if found is Some {
                let nodes = doc@.child_nodes(*self);
                let j = found->0 as int;
                assert(nodes[j] == NodeModel::Element(*child));
                assert(doc@.children_wf(doc@.elements[self.index as int].child_nodes, Some(*self)));
                let k = position(nodes, *child);
                if j < k {
                    assert(nodes[j] != nodes[k]);
                } else if k < j {
                    assert(nodes[k] != nodes[j]);
                }
            }
        }
        found
    }

    /// Returns the class name of the element.
    pub fn class_name(&self, doc: &HtmlDocument) -> (name: String)
        requires
            doc@.has(*self),
        ensures
            name@ == doc@.element(*self).class_name(),
    {
        doc.elements[self.index].class_name()
    }

    /// Adds a new class to the class list of the element.
    pub fn add_class(&self, doc: &mut HtmlDocument, class_name: &str)
        requires
            old(doc).wf(),
            old(doc)@.has(*self),
        ensures
            final(doc).wf(),
            final(doc)@ == old(doc)@.with_element(
                *self,
                old(doc)@.element(*self).add_class(class_name@),
            ),
    {
        let ghost before = doc@;
        assert(before.elements[self.index as int].wf());
        doc.elements[self.index].add_class(class_name);
        proof {
            let element = before.element(*self).add_class(class_name@);
            assert(doc@.elements =~= before.elements.update(self.index as int, element));
            before.lemma_with_element(*self, element);
        }
    }

    /// Removes a class from the element class list if it exists.
    pub fn remove_class(&self, doc: &mut HtmlDocument, class_name: &str)
        requires
            old(doc).wf(),
            old(doc)@.has(*self),
        ensures
            final(doc).wf(),
            final(doc)@ == old(doc)@.with_element(
                *self,
                old(doc)@.element(*self).remove_class(class_name@),
            ),
    {
        let ghost before = doc@;
        assert(before.elements[self.index as int].wf());
        doc.elements[self.index].remove_class(class_name);
        proof {
            let element = before.element(*self).remove_class(class_name@);
            assert(doc@.elements =~= before.elements.update(self.index as int, element));
            before.lemma_with_element(*self, element);
        }
    }

    /// Returns the class list of the element.
    pub fn class_list<'a>(&self, doc: &'a HtmlDocument) -> (list: &'a Vec<String>)
        requires
            doc@.has(*self),
        ensures
            strings_view(list@) == doc@.element(*self).class_list,
    {
        &doc.elements[self.index].class_list
    }

    /// Appends a text node to the element.
    pub fn append_text(&self, doc: &mut HtmlDocument, text_node: HtmlTextNode)
        requires
            old(doc).wf(),
            old(doc)@.has(*self),
        ensures
            final(doc).wf(),
            final(doc)@ == old(doc)@.add_node(
                *self,
                NodeModel::Text { content: text_node.content@, span: text_node.span@ },
            ),
    {
        self.append_node(doc, HtmlNode::Text(text_node));
    }

    /// Appends a node that is no element to the element.
    pub fn append_node(&self, doc: &mut HtmlDocument, node: HtmlNode)
        requires
            old(doc).wf(),
            old(doc)@.has(*self),
            !(node@ is Element),
        ensures
            final(doc).wf(),
            final(doc)@ == old(doc)@.add_node(*self, node@),
    {
        let ghost before = doc@;
        let ghost old_nodes = doc.elements[self.index as int].child_nodes@;
        doc.elements[self.index].child_nodes.push(node);
        proof {
            assert(nodes_view(old_nodes.push(node)) =~= nodes_view(old_nodes).push(node@));
            assert(doc@.elements =~= before.add_node(*self, node@).elements);
            before.lemma_add_node(*self, node@);
        }
    }

    /// Retrieve the parent of the element, if it exists.
    pub fn parent(&self, doc: &HtmlDocument) -> (parent: Option<ElementRef>)
        requires
            doc@.has(*self),
        ensures
            parent == doc@.parent(*self),
    {
        doc.elements[self.index].parent
    }

    /// Append a new element to the end of the element.
    pub fn append(&self, doc: &mut HtmlDocument, child: &ElementRef)
        requires
            old(doc).wf(),
            old(doc)@.has(*self),
            old(doc)@.has(*child),
        ensures
            final(doc).wf(),
            final(doc)@ == old(doc)@.append(*self, *child),
    {
        if doc.is_ancestor_or_self(*child, *self) {
            return ;
        }
        proof {
            doc@.lemma_movable_detached(*self, *child);
        }
        doc.detach(*child);
        let at = doc.elements[self.index].child_nodes.len();
        doc.attach(*self, *child, at);
    }

    /// Prepend a new element at the start of the element.
    pub fn prepend(&self, doc: &mut HtmlDocument, child: &ElementRef)
        requires
            old(doc).wf(),
            old(doc)@.has(*self),
            old(doc)@.has(*child),
        ensures
            final(doc).wf(),
            final(doc)@ == old(doc)@.prepend(*self, *child),
    {
        if doc.is_ancestor_or_self(*child, *self) {
            return ;
        }
        proof {
            doc@.lemma_movable_detached(*self, *child);
        }
        doc.detach(*child);
        doc.attach(*self, *child, 0);
    }

    /// Check if there are children in the element without creating the
    /// children vector.
    pub fn has_children(&self, doc: &HtmlDocument) -> (r: bool)
        requires
            doc@.has(*self),
        ensures
            r == (doc@.child_nodes(*self).len() > 0),
    {
        doc.elements[self.index].child_nodes.len() > 0
    }

    /// Disconnect an element from this one, its parent.
    /// If the element is not a child of this one then nothing happens.
    pub fn remove(&self, doc: &mut HtmlDocument, node: &ElementRef)
        requires
            old(doc).wf(),
            old(doc)@.has(*self),
            old(doc)@.has(*node),
        ensures
            final(doc).wf(),
            final(doc)@ == old(doc)@.remove(*self, *node),
    {
        match doc.elements[node.index].parent {
            Some(p) => {
                if p.index == self.index {
                    doc.detach(*node);
                }
            },
            None => {},
        }
    }

    /// Insert an element directly after this one.
    pub fn after(&self, doc: &mut HtmlDocument, node: &ElementRef)
        requires
            old(doc).wf(),
            old(doc)@.has(*self),
            old(doc)@.has(*node),
        ensures
            final(doc).wf(),
            final(doc)@ == old(doc)@.after(*self, *node),
    {
        let ghost before = doc@;
        match doc.elements[self.index].parent {
            Some(p) => {
                proof {
                    before.lemma_parent_depth(*self);
                }
                if node.index == self.index || doc.is_ancestor_or_self(*node, p) {
                    return ;
                }
                proof {
                    before.lemma_movable_detached(p, *node);
                    before.lemma_detach_keeps(*node, *self);
                }
                doc.detach(*node);
                match self.sibling_index(doc, p) {
                    Some(index) => {
                        assert(doc@.child_nodes(p).len() == doc.elements[p.index as int].child_nodes.len());
                        doc.attach(p, *node, index + 1);
                    },
                    None => {
                        assert(false);
                    },
                }
            },
            None => {},
        }
    }

    /// The place of this element among the children of its parent `p`.
    fn sibling_index(&self, doc: &HtmlDocument, p: ElementRef) -> (index: Option<usize>)
        requires
            doc.wf(),
            doc@.has(*self),
            doc@.parent(*self) == Some(p),
        ensures
            index is Some,
            index->0 == position(doc@.child_nodes(p), *self),
            index->0 < doc@.child_nodes(p).len(),
    {
        proof {
            doc@.lemma_child_position(*self);
        }
        p.get_index_of(doc, self)
    }

    /// The elements among the children of the element, in order.
    pub fn children(&self, doc: &HtmlDocument) -> (children: Vec<ElementRef>)
        requires
            doc@.has(*self),
        ensures
            children@ == element_children(doc@.child_nodes(*self)),
    {
        elements_of(&doc.elements[self.index].child_nodes)
    }

    /// Check if this element is an ancestor of another.
    pub fn contains(&self, doc: &HtmlDocument, node: &ElementRef) -> (r: bool)
        requires
            doc.wf(),
            doc@.has(*node),
        ensures
            r == doc@.ancestor(*self, *node),
    {
        match doc.elements[node.index].parent {
            Some(p) => {
                proof {
                    doc@.lemma_parent_depth(*node);
                }
                doc.is_ancestor_or_self(*self, p)
            },
            None => false,
        }
    }

    /// Return a string with the inner text of the node.
    pub fn get_text_content(&self, doc: &HtmlDocument) -> (text: String)
        requires
            doc.wf(),
            doc@.has(*self),
        ensures
            text@ == doc@.text_content(*self),
        decreases doc@.height(*self),
    {
        let mut text_content = String::new();
        let nodes = &doc.elements[self.index].child_nodes;
        let mut i: usize = 0;
        while i < nodes.len()
            invariant
                doc.wf(),
                doc@.has(*self),
                nodes_view(nodes@) == doc@.child_nodes(*self),
                i <= nodes.len(),
                text_content@ == doc@.text_upto(*self, i as nat),
            decreases nodes.len() - i,
        {
            match &nodes[i] {
                HtmlNode::Text(text_node) => {
                    assert(doc@.child_nodes(*self)[i as int] == nodes[i as int]@);
                    text_content.append(text_node.content.as_str());
                },
                HtmlNode::Element(element_ref) => {
                    assert(doc@.child_nodes(*self)[i as int] == nodes[i as int]@);
                    proof {
                        doc@.lemma_child(*self, i as int);
                    }
                    let inner = element_ref.get_text_content(doc);
                    text_content.append(inner.as_str());
                },
                _ => {
                    assert(doc@.child_nodes(*self)[i as int] == nodes[i as int]@);
                    assert(text_content@ + Seq::<char>::empty() == text_content@);
                },
            }
            i += 1;
        }
        text_content
    }
}

/// The handles of the elements among `nodes`, in order.
pub fn elements_of(nodes: &Vec<HtmlNode>) -> (elements: Vec<ElementRef>)
    ensures
        elements@ == element_children(nodes_view(nodes@)),
{
    let mut elements: Vec<ElementRef> = Vec::new();
    let mut i: usize = 0;
    let ghost all = nodes_view(nodes@);
    assert(all.take(0) =~= Seq::empty());
    while i < nodes.len()
        invariant
            i <= nodes.len(),
            all == nodes_view(nodes@),
            elements@ == element_children(all.take(i as int)),
        decreases nodes.len() - i,
    {
        assert(all.take(i + 1).drop_last() =~= all.take(i as int));
        assert(all.take(i + 1).last() == nodes[i as int]@);
        match &nodes[i] {
            HtmlNode::Element(e) => {
                elements.push(*e);
            },
            _ => {},
        }
        i += 1;
    }
    assert(all.take(i as int) =~= all);
    elements
}

} // verus!
