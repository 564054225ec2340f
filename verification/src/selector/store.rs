//! The selector parser's store: the characters gathered for the pattern
//! that is being read, and the selector built so far.
use vstd::prelude::*;
use crate::selector::parser::{Emit, Relation, SelectorError};
use crate::selector::pattern::{
    selectors_view,
    PatternModel,
    Selector,
    SelectorModel,
    SelectorPattern,
};
use crate::tag::HtmlTag;
use crate::text::lowercase;

verus! {

impl SelectorModel {
    /// The selector with `pattern` added where the selector takes new
    /// patterns: in the last alternative of a group, in the second selector
    /// of a descendant relation, or else at its own end.
    pub open spec fn receive(self, pattern: PatternModel) -> SelectorModel {
        if self.patterns.len() == 0 {
            self.push(pattern)
        } else {
            match self.patterns[0] {
                PatternModel::Group(group) => if group.len() > 0 {
                    SelectorModel {
                        patterns: self.patterns.update(
                            0,
                            PatternModel::Group(
                                group.update(group.len() - 1, group.last().push(pattern)),
                            ),
                        ),
                    }
                } else {
                    self.push(pattern)
                },
                PatternModel::Descendant(other, target) => SelectorModel {
                    patterns: self.patterns.update(
                        0,
                        PatternModel::Descendant(other, Box::new(target.push(pattern))),
                    ),
                },
                _ => self.push(pattern),
            }
        }
    }

    /// The selector that takes new patterns: see `receive`.
    pub open spec fn receiver(self) -> SelectorModel {
        if self.patterns.len() == 0 {
            self
        } else {
            match self.patterns[0] {
                PatternModel::Group(group) => if group.len() > 0 {
                    group.last()
                } else {
                    self
                },
                PatternModel::Descendant(other, target) => *target,
                _ => self,
            }
        }
    }

    /// The pattern that relates a selector for another element to a
    /// selector for the element itself.
    pub open spec fn relate(relation: Relation, other: SelectorModel) -> PatternModel {
        match relation {
            Relation::Descendant => PatternModel::Descendant(
                Box::new(other),
                Box::new(SelectorModel::empty()),
            ),
            Relation::Child => PatternModel::Child(
                Box::new(other),
                Box::new(SelectorModel::empty()),
            ),
            Relation::AdjacentSibling => PatternModel::AdjacentSibling(
                Box::new(other),
                Box::new(SelectorModel::empty()),
            ),
            Relation::GeneralSibling => PatternModel::GeneralSibling(
                Box::new(other),
                Box::new(SelectorModel::empty()),
            ),
            Relation::Group => PatternModel::Group(seq![other, SelectorModel::empty()]),
        }
    }

    /// The selector that follows this one after a combinator. What was read
    /// so far becomes the first selector of the relation. Inside a group it
    /// is the last alternative that is so related, and a further comma adds
    /// an alternative.
    pub open spec fn shift(self, relation: Relation) -> SelectorModel {
        if self.patterns.len() > 0 && self.patterns[0] is Group && self.patterns[0]->Group_0.len()
            > 0 {
            let group = self.patterns[0]->Group_0;
            SelectorModel {
                patterns: self.patterns.update(
                    0,
                    PatternModel::Group(
                        match relation {
                            Relation::Group => group.push(SelectorModel::empty()),
                            _ => group.drop_last().push(
                                SelectorModel::empty().push(
                                    SelectorModel::relate(relation, group.last()),
                                ),
                            ),
                        },
                    ),
                ),
            }
        } else {
            SelectorModel::empty().push(SelectorModel::relate(relation, self))
        }
    }

    /// A group at the head of the selector has at least one alternative.
    pub open spec fn wf(self) -> bool {
        self.patterns.len() > 0 && self.patterns[0] is Group ==> self.patterns[0]->Group_0.len()
            > 0
    }
}

impl Selector {
    /// Adds a pattern where the selector takes new patterns.
    pub fn receive(&mut self, pattern: SelectorPattern)
        requires
            old(self)@.wf(),
            !(pattern@ is Group),
        ensures
            final(self)@ == old(self)@.receive(pattern@),
            final(self)@.wf(),
    {
        if self.patterns.len() == 0 {
            self.push(pattern);
            return ;
        }
        let mut first = SelectorPattern::Universal;
        std::mem::swap(&mut first, &mut self.patterns[0]);
        match first {
            // Parsed selector belongs to the last item in a group.
            SelectorPattern::Group(mut group) => {
                let ghost before = selectors_view(group);
                let mut last = group.pop().unwrap();
                last.push(pattern);
                group.push(last);
                assert(selectors_view(group) =~= before.update(
                    before.len() - 1,
                    before.last().push(pattern@),
                ));
                first = SelectorPattern::Group(group);
                std::mem::swap(&mut first, &mut self.patterns[0]);
                assert(self@.patterns =~= old(self)@.receive(pattern@).patterns);
            },
            // Parsed selector is a descendant of previous.
            SelectorPattern::Descendant(other, mut target) => {
                target.push(pattern);
                first = SelectorPattern::Descendant(other, target);
                std::mem::swap(&mut first, &mut self.patterns[0]);
                assert(self@.patterns =~= old(self)@.receive(pattern@).patterns);
            },
            // Parsed selector is simple.
            other => {
                first = other;
                std::mem::swap(&mut first, &mut self.patterns[0]);
                assert(self.patterns@ =~= old(self).patterns@);
                self.push(pattern);
            },
        }
    }

    /// Whether the selector that takes new patterns has an id among its own
    /// patterns.
    pub fn receiver_has_id(&self) -> (r: bool)
        requires
            self@.wf(),
        ensures
            r == self@.receiver().has_id(),
    {
        if self.patterns.len() == 0 {
            return self.has_id();
        }
        assert(self@.patterns[0] == self.patterns[0]@);
        match &self.patterns[0] {
            SelectorPattern::Group(group) => {
                assert(selectors_view(*group).len() == group.len());
                assert(selectors_view(*group).last() == group[group.len() - 1]@);
                group[group.len() - 1].has_id()
            },
            SelectorPattern::Descendant(_, target) => target.has_id(),
            _ => self.has_id(),
        }
    }

    /// The selector that follows this one after a combinator.
    pub fn shift(self, relation: Relation) -> (shifted: Selector)
        requires
            self@.wf(),
        ensures
            shifted@ == self@.shift(relation),
            shifted@.wf(),
    {
        let mut last = self;
        let in_group = last.patterns.len() > 0 && match &last.patterns[0] {
            SelectorPattern::Group(_) => true,
            _ => false,
        };
        if in_group {
            let mut first = SelectorPattern::Universal;
            std::mem::swap(&mut first, &mut last.patterns[0]);
            match first {
                SelectorPattern::Group(mut group) => {
                    let ghost before = selectors_view(group);
                    match relation {
                        // A collection of selectors e.g. "p.text, div, span".
                        Relation::Group => {
                            group.push(Selector::new());
                            assert(selectors_view(group) =~= before.push(SelectorModel::empty()));
                        },
                        _ => {
                            let last_added_selector = group.pop().unwrap();
                            let mut new_selector = Selector::new();
                            new_selector.push(relate(relation, last_added_selector));
                            group.push(new_selector);
                            assert(selectors_view(group) =~= before.drop_last().push(
                                SelectorModel::empty().push(
                                    SelectorModel::relate(relation, before.last()),
                                ),
                            ));
                        },
                    }
                    first = SelectorPattern::Group(group);
                },
                other => {
                    first = other;
                },
            }
            std::mem::swap(&mut first, &mut last.patterns[0]);
            assert(last@.patterns =~= self@.shift(relation).patterns);
            last
        } else {
            let mut host = Selector::new();
            host.push(relate(relation, last));
            host
        }
    }
}

/// The pattern that relates `other`, a selector for another element, to a
/// selector for the element itself that is yet to be read.
fn relate(relation: Relation, other: Selector) -> (pattern: SelectorPattern)
    ensures
        pattern@ == SelectorModel::relate(relation, other@),
{
    match relation {
        // A catch-all selector, e.g. "div span", a span at any level within a div.
        Relation::Descendant => SelectorPattern::Descendant(
            Box::new(other),
            Box::new(Selector::new()),
        ),
        // Direct child selector, e.g. "section > h1", a h1 which is an immediate child of section.
        Relation::Child => SelectorPattern::Child(Box::new(other), Box::new(Selector::new())),
        Relation::AdjacentSibling => SelectorPattern::AdjacentSibling(
            Box::new(other),
            Box::new(Selector::new()),
        ),
        Relation::GeneralSibling => SelectorPattern::GeneralSibling(
            Box::new(other),
            Box::new(Selector::new()),
        ),
        Relation::Group => {
            let mut group: Vec<Selector> = Vec::new();
            group.push(other);
            group.push(Selector::new());
            assert(selectors_view(group) =~= seq![other@, SelectorModel::empty()]);
            SelectorPattern::Group(group)
        },
    }
}

/// What a [`SelectorStore`] holds.
pub struct SelectorStoreModel {
    /// The selector built so far.
    pub host: SelectorModel,
    /// Whether a character was gathered since the last pattern.
    pub has_data: bool,
    /// The characters gathered for a name or a key.
    pub first: Seq<char>,
    /// The characters gathered for the value of an attribute.
    pub second: Seq<char>,
}

impl SelectorStoreModel {
    /// The store before anything was read.
    pub open spec fn start() -> SelectorStoreModel {
        SelectorStoreModel {
            host: SelectorModel::empty(),
            has_data: false,
            first: Seq::empty(),
            second: Seq::empty(),
        }
    }

    /// The store with `ch` added to the name or key that is being read.
    pub open spec fn collect(self, ch: char) -> SelectorStoreModel {
        SelectorStoreModel { has_data: true, first: self.first.push(ch), ..self }
    }

    /// The store with `ch` added to the value that is being read.
    pub open spec fn collect_2(self, ch: char) -> SelectorStoreModel {
        SelectorStoreModel { has_data: true, second: self.second.push(ch), ..self }
    }

    /// The store with a note that there is something to make a pattern of.
    pub open spec fn mark(self) -> SelectorStoreModel {
        SelectorStoreModel { has_data: true, ..self }
    }

    /// The pattern that `event` makes of the gathered characters. A tag is
    /// known by its lower-case name; an attribute whose value is empty asks
    /// only that the attribute be there.
    pub open spec fn pattern_for(self, event: Emit) -> PatternModel {
        match event {
            Emit::Tag => PatternModel::Tag(lowercase(self.first)),
            Emit::Id => PatternModel::Id(self.first),
            Emit::Class => PatternModel::Class(self.first),
            Emit::Universal => PatternModel::Universal,
            Emit::Attribute => PatternModel::Attribute(
                self.first,
                if self.second.len() == 0 {
                    None
                } else {
                    Some(self.second)
                },
            ),
        }
    }

    /// The store after the gathered characters were made into a pattern.
    /// Without gathered characters there is no pattern to make, and a
    /// selector takes one id at most.
    pub open spec fn emit(self, event: Emit) -> Result<SelectorStoreModel, SelectorError> {
        if !self.has_data {
            Err(SelectorError::InvalidSelector)
        } else if event == Emit::Id && self.host.receiver().has_id() {
            Err(SelectorError::MultipleIds)
        } else {
            Ok(
                SelectorStoreModel {
                    host: self.host.receive(self.pattern_for(event)),
                    has_data: false,
                    first: Seq::empty(),
                    second: if event == Emit::Attribute {
                        Seq::empty()
                    } else {
                        self.second
                    },
                },
            )
        }
    }

    /// The store after a combinator: see [`SelectorModel::shift`].
    pub open spec fn shift(self, relation: Relation) -> SelectorStoreModel {
        SelectorStoreModel { host: self.host.shift(relation), ..self }
    }
}

/// What the selector parser has gathered and built.
pub struct SelectorStore {
    selectors: Vec<Selector>,
    has_data: bool,
    cache: (String, String),
}

impl View for SelectorStore {
    type V = SelectorStoreModel;

    closed spec fn view(&self) -> SelectorStoreModel {
        SelectorStoreModel {
            host: self.selectors[0]@,
            has_data: self.has_data,
            first: self.cache.0@,
            second: self.cache.1@,
        }
    }
}

impl SelectorStore {
    /// The store holds one selector, and a group at its head has at least
    /// one alternative.
    pub closed spec fn wf(&self) -> bool {
        &&& self.selectors.len() == 1
        &&& self.selectors[0]@.wf()
    }

    /// Create a new store.
    pub fn new() -> (store: SelectorStore)
        ensures
            store.wf(),
            store@ == SelectorStoreModel::start(),
    {
        let mut selectors: Vec<Selector> = Vec::new();
        selectors.push(Selector::new());
        SelectorStore { selectors, cache: (String::new(), String::new()), has_data: false }
    }

    /// Returns a reference to the main selector in the store.
    pub fn host(&self) -> (host: &Selector)
        requires
            self.wf(),
        ensures
            host@ == self@.host,
    {
        &self.selectors[0]
    }

    /// Pushes a character to the store cache.
    pub fn collect(&mut self, ch: char)
        requires
            old(self).wf(),
        ensures
            final(self).wf(),
            final(self)@ == old(self)@.collect(ch),
    {
        if !self.has_data {
            self.has_data = true;
        }
        self.cache.0.push(ch);
    }

    /// Pushes a character to the value of the attribute that is being read.
    pub fn collect_2(&mut self, ch: char)
        requires
            old(self).wf(),
        ensures
            final(self).wf(),
            final(self)@ == old(self)@.collect_2(ch),
    {
        if !self.has_data {
            self.has_data = true;
        }
        self.cache.1.push(ch);
    }

    /// Notes that there is something to make a pattern of, though no
    /// character was gathered for it.
    pub fn mark(&mut self)
        requires
            old(self).wf(),
        ensures
            final(self).wf(),
            final(self)@ == old(self)@.mark(),
    {
        self.has_data = true;
    }
    /// Add a new selector.
    pub fn emit(&mut self, event: Emit) -> (r: Result<(), SelectorError>)
        requires
            old(self).wf(),
        ensures
            final(self).wf(),
            match old(self)@.emit(event) {
                Ok(store) => r is Ok && final(self)@ == store,
                Err(error) => r == Err::<(), SelectorError>(error) && final(self)@ == old(self)@,
            },
    {
        // Can only create a pattern if there is data in the cache.
        if !self.has_data {
            return Err(SelectorError::InvalidSelector);
        }
        // Prevent id clashes.
        if event == Emit::Id && self.selectors[0].receiver_has_id() {
            return Err(SelectorError::MultipleIds);
        }
        let mut data = String::new();
        std::mem::swap(&mut data, &mut self.cache.0);
        // Confirm selector type.
        let pattern = match event {
            // Creates a tag pattern.
            Emit::Tag => SelectorPattern::Tag(HtmlTag::new(data)),
            // Creates an #id pattern.
            Emit::Id => SelectorPattern::Id(data),
            // Creates a .class pattern.
            Emit::Class => SelectorPattern::Class(data),
            // Creates a * class pattern.
            Emit::Universal => SelectorPattern::Universal,
            // Creates an [attribute] pattern.
            Emit::Attribute => {
                let mut value = String::new();
                std::mem::swap(&mut value, &mut self.cache.1);
                SelectorPattern::Attribute(
                    data,
                    if value.as_str().is_empty() {
                        None
                    } else {
                        Some(value)
                    },
                )
            },
        };
        // Check previous selector for relation.
        let mut host = self.selectors.pop().unwrap();
        host.receive(pattern);
        self.selectors.push(host);
        self.has_data = false;
        Ok(())
    }

    /// Creates a new host selector with a relation to the current host
    /// selector.
    pub fn shift(&mut self, relation: Relation)
        requires
            old(self).wf(),
        ensures
            final(self).wf(),
            final(self)@ == old(self)@.shift(relation),
    {
        let last = self.selectors.pop().unwrap();
        self.selectors.push(last.shift(relation));
    }
}

} // verus!
