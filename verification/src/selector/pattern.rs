//! The patterns that a selector is made of.
use vstd::prelude::*;
use crate::tag::HtmlTag;
use crate::token::opt_view;

verus! {

/// A selector: a list of patterns, all of which an element has to meet.
#[derive(Debug, PartialEq)]
pub struct Selector {
    pub patterns: Vec<SelectorPattern>,
}

/// The pseudo-classes: `Root` is met by an element without a parent,
/// `Empty` by one without child nodes.
#[derive(Clone, Copy, Debug, PartialEq, Eq, Structural)]
pub enum PseudoClass {
    Root,
    Empty,
}

/// One condition on an element. The relations hold two selectors: the first
/// is met by the other element (an ancestor, the parent or a sibling), the
/// second by the element itself.
#[derive(Debug, PartialEq)]
pub enum SelectorPattern {
    Universal,
    Tag(HtmlTag),
    Class(String),
    Id(String),
    Attribute(String, Option<String>),
    Descendant(Box<Selector>, Box<Selector>),
    Child(Box<Selector>, Box<Selector>),
    AdjacentSibling(Box<Selector>, Box<Selector>),
    GeneralSibling(Box<Selector>, Box<Selector>),
    Group(Vec<Selector>),
    PseudoClass(PseudoClass),
}

/// What a selector says, with its strings as sequences of characters.
pub struct SelectorModel {
    pub patterns: Seq<PatternModel>,
}

/// What a pattern says, with its strings as sequences of characters and its
/// tag as a name.
pub enum PatternModel {
    Universal,
    Tag(Seq<char>),
    Class(Seq<char>),
    Id(Seq<char>),
    Attribute(Seq<char>, Option<Seq<char>>),
    Descendant(Box<SelectorModel>, Box<SelectorModel>),
    Child(Box<SelectorModel>, Box<SelectorModel>),
    AdjacentSibling(Box<SelectorModel>, Box<SelectorModel>),
    GeneralSibling(Box<SelectorModel>, Box<SelectorModel>),
    Group(Seq<SelectorModel>),
    PseudoClass(PseudoClass),
}

impl SelectorModel {
    /// The selector without patterns, which every element meets.
    pub open spec fn empty() -> SelectorModel {
        SelectorModel { patterns: Seq::empty() }
    }

    /// The selector with one more pattern at its end.
    pub open spec fn push(self, pattern: PatternModel) -> SelectorModel {
        SelectorModel { patterns: self.patterns.push(pattern) }
    }

    /// Whether one of the selector's own patterns is an id.
    pub open spec fn has_id(self) -> bool {
        exists|i: int| 0 <= i < self.patterns.len() && #[trigger] self.patterns[i] is Id
    }
}

impl View for Selector {
    type V = SelectorModel;

    open spec fn view(&self) -> SelectorModel {
        self.model()
    }
}

impl View for SelectorPattern {
    type V = PatternModel;

    open spec fn view(&self) -> PatternModel {
        self.model()
    }
}

impl SelectorPattern {
    /// What the pattern says.
    pub open spec fn model(&self) -> PatternModel
        decreases self,
    {
        match self {
            SelectorPattern::Universal => PatternModel::Universal,
            SelectorPattern::Tag(tag) => PatternModel::Tag(tag@),
            SelectorPattern::Class(name) => PatternModel::Class(name@),
            SelectorPattern::Id(id) => PatternModel::Id(id@),
            SelectorPattern::Attribute(key, value) => PatternModel::Attribute(
                key@,
                opt_view(*value),
            ),
            SelectorPattern::Descendant(other, target) => PatternModel::Descendant(
                Box::new(other.model()),
                Box::new(target.model()),
            ),
            SelectorPattern::Child(other, target) => PatternModel::Child(
                Box::new(other.model()),
                Box::new(target.model()),
            ),
            SelectorPattern::AdjacentSibling(other, target) => PatternModel::AdjacentSibling(
                Box::new(other.model()),
                Box::new(target.model()),
            ),
            SelectorPattern::GeneralSibling(other, target) => PatternModel::GeneralSibling(
                Box::new(other.model()),
                Box::new(target.model()),
            ),
            SelectorPattern::Group(group) => PatternModel::Group(selectors_view(*group)),
            SelectorPattern::PseudoClass(class) => PatternModel::PseudoClass(*class),
        }
    }
}

/// The models of a list of selectors, in order.
pub open spec fn selectors_view(selectors: Vec<Selector>) -> Seq<SelectorModel>
    decreases selectors,
{
    Seq::new(
        selectors.len() as nat,
        |i: int|
            if 0 <= i < selectors.len() {
                selectors[i].model()
            } else {
                SelectorModel::empty()
            },
    )
}

impl Selector {
    /// What the selector says.
    pub open spec fn model(&self) -> SelectorModel
        decreases self,
    {
        SelectorModel {
            patterns: Seq::new(
                self.patterns.len() as nat,
                |i: int|
                    if 0 <= i < self.patterns.len() {
                        self.patterns[i].model()
                    } else {
                        PatternModel::Universal
                    },
            ),
        }
    }

    /// The selector without patterns.
    pub fn new() -> (selector: Selector)
        ensures
            selector@ == SelectorModel::empty(),
    {
        let selector = Selector { patterns: Vec::new() };
        assert(selector@.patterns =~= Seq::empty());
        selector
    }

    /// Adds a pattern at the end of the selector.
    pub fn push(&mut self, pattern: SelectorPattern)
        ensures
            final(self)@ == old(self)@.push(pattern@),
    {
        self.patterns.push(pattern);
        assert(self@.patterns =~= old(self)@.patterns.push(pattern@));
    }

    /// Whether one of the selector's own patterns is an id.
    pub fn has_id(&self) -> (r: bool)
        ensures
            r == self@.has_id(),
    {
        let mut i: usize = 0;
        while i < self.patterns.len()
            invariant
                i <= self.patterns.len(),
                forall|j: int| 0 <= j < i ==> !(#[trigger] self@.patterns[j] is Id),
            decreases self.patterns.len() - i,
        {
            match &self.patterns[i] {
                SelectorPattern::Id(_) => {
                    assert(self@.patterns[i as int] is Id);
                    return true;
                },
                _ => {},
            }
            i += 1;
        }
        false
    }
}

} // verus!
