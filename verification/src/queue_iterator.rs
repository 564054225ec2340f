//! A character stream with pushback: characters that were read can be put
//! back, and are read again before the stream goes on with its source.
use std::collections::VecDeque;
use vstd::prelude::*;
use crate::high_order_iterator::HigherOrderIterator;
use crate::matrix_iterator::{MatrixIterator, MatrixModel};
use crate::text::string_of;

verus! {

/// What a [`QueueIterator`] holds: the characters that were put back, the
/// one that is read first in front, and the stream that they came from.
pub struct QueueModel {
    pub front: Seq<char>,
    pub inner: MatrixModel,
}

/// Whether the closure `f` always answers, and answers as `p` does.
pub open spec fn agrees<F: Fn(&char) -> bool>(f: F, p: spec_fn(char) -> bool) -> bool {
    &&& forall|c: char| #[trigger] f.requires((&c,))
    &&& forall|c: char, b: bool| #[trigger] f.ensures((&c,), b) ==> b == p(c)
}

impl QueueModel {
    /// The stream over `input` before anything was read.
    pub open spec fn start(input: Seq<char>, delineator: char) -> QueueModel {
        QueueModel { front: Seq::empty(), inner: MatrixModel::start(input, delineator) }
    }

    /// The stream that the characters come from is well formed.
    pub open spec fn wf(self) -> bool {
        self.inner.wf()
    }

    /// The number of characters that are still to be read.
    pub open spec fn len(self) -> nat {
        self.front.len() + self.inner.rest.len()
    }

    /// The characters that are still to be read, in the order in which they
    /// will come.
    pub open spec fn remaining(self) -> Seq<char> {
        self.front + self.inner.rest
    }

    /// The character that is read next, where one is left.
    pub open spec fn peek(self) -> Option<char> {
        if self.front.len() > 0 {
            Some(self.front[0])
        } else if self.inner.rest.len() > 0 {
            Some(self.inner.rest[0])
        } else {
            None
        }
    }

    /// The stream after its next character was read. A character that was
    /// put back leaves the positions as they are; one of the source moves
    /// them on.
    pub open spec fn advance(self) -> QueueModel {
        if self.front.len() > 0 {
            QueueModel { front: self.front.drop_first(), ..self }
        } else if self.inner.rest.len() > 0 {
            QueueModel { inner: self.inner.advance(), ..self }
        } else {
            self
        }
    }

    /// The stream after `c` was put back. It is read after the characters
    /// that were put back before it.
    pub open spec fn push(self, c: char) -> QueueModel {
        QueueModel { front: self.front.push(c), ..self }
    }

    /// The reported position.
    pub open spec fn locus(self) -> (usize, usize) {
        self.inner.locus()
    }

    /// The stream with the reported position one character back.
    pub open spec fn left(self) -> QueueModel {
        QueueModel { inner: self.inner.left(), ..self }
    }

    /// The stream after characters were read up to the first one that `p`
    /// holds of, which is put back, or up to the end.
    pub open spec fn next_until(self, p: spec_fn(char) -> bool) -> QueueModel
        decreases self.len(),
    {
        match self.peek() {
            None => self,
            Some(c) => if p(c) {
                self.advance().push(c)
            } else {
                self.advance().next_until(p)
            },
        }
    }

    /// The stream after characters were read up to the first one that `p`
    /// does not hold of, which is put back, or up to the end.
    pub open spec fn next_while(self, p: spec_fn(char) -> bool) -> QueueModel
        decreases self.len(),
    {
        match self.peek() {
            None => self,
            Some(c) => if !p(c) {
                self.advance().push(c)
            } else {
                self.advance().next_while(p)
            },
        }
    }

    /// The characters that are read before the first one that `p` holds of.
    pub open spec fn collected_until(self, p: spec_fn(char) -> bool) -> Seq<char>
        decreases self.len(),
    {
        match self.peek() {
            None => Seq::empty(),
            Some(c) => if p(c) {
                Seq::empty()
            } else {
                seq![c] + self.advance().collected_until(p)
            },
        }
    }

    /// The stream after characters were read up to and including the first
    /// one that `p` holds of, or up to the end.
    pub open spec fn find(self, p: spec_fn(char) -> bool) -> QueueModel
        decreases self.len(),
    {
        match self.peek() {
            None => self,
            Some(c) => if p(c) {
                self.advance()
            } else {
                self.advance().find(p)
            },
        }
    }

    /// The first character that `p` holds of among those that are still to
    /// be read.
    pub open spec fn found(self, p: spec_fn(char) -> bool) -> Option<char>
        decreases self.len(),
    {
        match self.peek() {
            None => None,
            Some(c) => if p(c) {
                Some(c)
            } else {
                self.advance().found(p)
            },
        }
    }

    /// The stream after `count` characters were read, or all of them where
    /// fewer are left.
    pub open spec fn advance_by(self, count: nat) -> QueueModel
        decreases count,
    {
        if count == 0 || self.peek() is None {
            self
        } else {
            self.advance().advance_by((count - 1) as nat)
        }
    }

    /// The first `count` characters that are read, or all of them where
    /// fewer are left.
    pub open spec fn collected_next(self, count: nat) -> Seq<char>
        decreases count,
    {
        if count == 0 {
            Seq::empty()
        } else {
            match self.peek() {
                None => Seq::empty(),
                Some(c) => seq![c] + self.advance().collected_next((count - 1) as nat),
            }
        }
    }

    /// Reading a character keeps the stream well formed and leaves one
    /// character less.
    pub proof fn lemma_advance(self)
        requires
            self.wf(),
            self.peek() is Some,
        ensures
            self.advance().wf(),
            self.advance().len() == self.len() - 1,
            self.advance().front.len() <= self.front.len(),
            self.remaining() == seq![self.peek().unwrap()] + self.advance().remaining(),
    {
        if self.front.len() == 0 {
            self.inner.lemma_advance();
        }
    }

    /// Reading up to a character and putting it back keeps the stream well
    /// formed and does not lengthen it.
    pub proof fn lemma_next_until(self, p: spec_fn(char) -> bool)
        requires
            self.wf(),
        ensures
            self.next_until(p).wf(),
            self.next_until(p).len() <= self.len(),
            self.next_until(p).front.len() <= 1 || self.next_until(p).front.len()
                <= self.front.len(),
            self.next_until(p).peek() matches Some(c) ==> self.front.len() <= 1 ==> p(c),
        decreases self.len(),
    {
        match self.peek() {
            None => {},
            Some(c) => {
                self.lemma_advance();
                if !p(c) {
                    self.advance().lemma_next_until(p);
                }
            },
        }
    }

    /// Reading while a condition holds keeps the stream well formed and does
    /// not lengthen it.
    pub proof fn lemma_next_while(self, p: spec_fn(char) -> bool)
        requires
            self.wf(),
        ensures
            self.next_while(p).wf(),
            self.next_while(p).len() <= self.len(),
            self.next_while(p).front.len() <= 1 || self.next_while(p).front.len()
                <= self.front.len(),
            self.next_while(p).peek() matches Some(c) ==> self.front.len() <= 1 ==> !p(c),
        decreases self.len(),
    {
        match self.peek() {
            None => {},
            Some(c) => {
                self.lemma_advance();
                if p(c) {
                    self.advance().lemma_next_while(p);
                }
            },
        }
    }

    /// Reading through to a character keeps the stream well formed and does
    /// not lengthen it.
    pub proof fn lemma_find(self, p: spec_fn(char) -> bool)
        requires
            self.wf(),
        ensures
            self.find(p).wf(),
            self.find(p).len() <= self.len(),
            self.find(p).front.len() <= self.front.len(),
        decreases self.len(),
    {
        match self.peek() {
            None => {},
            Some(c) => {
                self.lemma_advance();
                if !p(c) {
                    self.advance().lemma_find(p);
                }
            },
        }
    }

    /// Reading a number of characters keeps the stream well formed and does
    /// not lengthen it.
    pub proof fn lemma_advance_by(self, count: nat)
        requires
            self.wf(),
        ensures
            self.advance_by(count).wf(),
            self.advance_by(count).len() <= self.len(),
            self.advance_by(count).front.len() <= self.front.len(),
        decreases count,
    {
        if count == 0 || self.peek() is None {
        } else {
            self.lemma_advance();
            self.advance().lemma_advance_by((count - 1) as nat);
        }
    }
}

/// A compound iterator that allows you to add elements in front of the
/// sequence and give them priority.
pub struct QueueIterator {
    front: VecDeque<char>,
    input: MatrixIterator,
}

impl View for QueueIterator {
    type V = QueueModel;

    closed spec fn view(&self) -> QueueModel {
        QueueModel { front: self.front@, inner: self.input@ }
    }
}

impl QueueIterator {
    /// The iterator is in a state that its own methods lead to.
    pub closed spec fn wf(&self) -> bool {
        self.input.wf()
    }

    /// A well-formed iterator has a well-formed model.
    pub proof fn lemma_wf(&self)
        requires
            self.wf(),
        ensures
            self@.wf(),
    {
        self.input.lemma_wf();
    }

    /// The iterator over `input`, with no character put back.
    pub fn new(input: MatrixIterator) -> (iter: QueueIterator)
        requires
            input.wf(),
        ensures
            iter.wf(),
            iter@ == (QueueModel { front: Seq::empty(), inner: input@ }),
    {
        QueueIterator { input, front: VecDeque::new() }
    }

    /// The next character: the oldest of those that were put back, or the
    /// next one of the source.
    pub fn next(&mut self) -> (item: Option<char>)
        requires
            old(self).wf(),
        ensures
            final(self).wf(),
            item == old(self)@.peek(),
            final(self)@ == old(self)@.advance(),
    {
        if self.front.len() > 0 {
            self.front.pop_front()
        } else {
            self.input.next()
        }
    }

    /// Put an item in front of the iterator.
    pub fn push(&mut self, item: char)
        requires
            old(self).wf(),
        ensures
            final(self).wf(),
            final(self)@ == old(self)@.push(item),
    {
        self.front.push_back(item);
    }

    /// Advances the iterator until it reaches the first item that matches a
    /// predicate, or it reaches the end of the iterator. The item that
    /// matches is not consumed.
    pub fn next_until<F: Fn(&char) -> bool>(&mut self, f: F)
        requires
            old(self).wf(),
            forall|c: char| #[trigger] f.requires((&c,)),
        ensures
            final(self).wf(),
            forall|p: spec_fn(char) -> bool|
                agrees(f, p) ==> final(self)@ == #[trigger] old(self)@.next_until(p),
    {
        loop
            invariant_except_break
                forall|p: spec_fn(char) -> bool|
                    agrees(f, p) ==> self@.next_until(p) == #[trigger] old(self)@.next_until(p),
            invariant
                self.wf(),
                forall|c: char| #[trigger] f.requires((&c,)),
            ensures
                self.wf(),
                forall|p: spec_fn(char) -> bool|
                    agrees(f, p) ==> self@ == #[trigger] old(self)@.next_until(p),
            decreases self@.len(),
        {
            proof {
                self.lemma_wf();
                if self@.peek() is Some {
                    self@.lemma_advance();
                }
            }
            match self.next() {
                Some(item) => {
                    if f(&item) {
                        self.push(item);
                        break ;
                    }
                },
                None => {
                    break ;
                },
            }
        }
    }

    /// Advances the iterator until it reaches the first item that does not
    /// match a predicate. That item is not consumed.
    pub fn next_while<F: Fn(&char) -> bool>(&mut self, f: F)
        requires
            old(self).wf(),
            forall|c: char| #[trigger] f.requires((&c,)),
        ensures
            final(self).wf(),
            forall|p: spec_fn(char) -> bool|
                agrees(f, p) ==> final(self)@ == #[trigger] old(self)@.next_while(p),
    {
        loop
            invariant_except_break
                forall|p: spec_fn(char) -> bool|
                    agrees(f, p) ==> self@.next_while(p) == #[trigger] old(self)@.next_while(p),
            invariant
                self.wf(),
                forall|c: char| #[trigger] f.requires((&c,)),
            ensures
                self.wf(),
                forall|p: spec_fn(char) -> bool|
                    agrees(f, p) ==> self@ == #[trigger] old(self)@.next_while(p),
            decreases self@.len(),
        {
            proof {
                self.lemma_wf();
                if self@.peek() is Some {
                    self@.lemma_advance();
                }
            }
            match self.next() {
                Some(item) => {
                    if !f(&item) {
                        self.push(item);
                        break ;
                    }
                },
                None => {
                    break ;
                },
            }
        }
    }

    /// Gather the succeeding items into a string until there is an item that
    /// matches the predicate. That item is not consumed.
    pub fn collect_until<F: Fn(&char) -> bool>(&mut self, f: F) -> (collected: String)
        requires
            old(self).wf(),
            forall|c: char| #[trigger] f.requires((&c,)),
        ensures
            final(self).wf(),
            forall|p: spec_fn(char) -> bool|
                agrees(f, p) ==> final(self)@ == #[trigger] old(self)@.next_until(p),
            forall|p: spec_fn(char) -> bool|
                agrees(f, p) ==> collected@ == #[trigger] old(self)@.collected_until(p),
    {
        let mut collect: Vec<char> = Vec::new();
        loop
            invariant_except_break
                forall|p: spec_fn(char) -> bool|
                    agrees(f, p) ==> self@.next_until(p) == #[trigger] old(self)@.next_until(p),
                forall|p: spec_fn(char) -> bool|
                    agrees(f, p) ==> collect@ + self@.collected_until(p) == #[trigger] old(
                        self,
                    )@.collected_until(p),
            invariant
                self.wf(),
                forall|c: char| #[trigger] f.requires((&c,)),
            ensures
                self.wf(),
                forall|p: spec_fn(char) -> bool|
                    agrees(f, p) ==> self@ == #[trigger] old(self)@.next_until(p),
                forall|p: spec_fn(char) -> bool|
                    agrees(f, p) ==> collect@ == #[trigger] old(self)@.collected_until(p),
            decreases self@.len(),
        {
            proof {
                self.lemma_wf();
                if self@.peek() is Some {
                    self@.lemma_advance();
                }
            }
            let ghost before = self@;
            let ghost gathered = collect@;
            match self.next() {
                Some(item) => {
                    if f(&item) {
                        self.push(item);
                        proof {
                            assert forall|p: spec_fn(char) -> bool| agrees(f, p) implies collect@
                                == #[trigger] old(self)@.collected_until(p) by {
                                assert(gathered + before.collected_until(p) == old(
                                    self,
                                )@.collected_until(p));
                                assert(before.collected_until(p) == Seq::<char>::empty());
                                assert(gathered + Seq::<char>::empty() == gathered);
                            }
                        }
                        break ;
                    } else {
                        collect.push(item);
                        proof {
                            assert forall|p: spec_fn(char) -> bool| agrees(f, p) implies collect@
                                + self@.collected_until(p) == #[trigger] old(
                                self,
                            )@.collected_until(p) by {
                                assert(gathered + before.collected_until(p) == old(
                                    self,
                                )@.collected_until(p));
                                assert(before.collected_until(p) == seq![item]
                                    + self@.collected_until(p));
                                assert(gathered.push(item) + self@.collected_until(p) == gathered
                                    + (seq![item] + self@.collected_until(p)));
                            }
                        }
                    }
                },
                None => {
                    proof {
                        assert forall|p: spec_fn(char) -> bool| agrees(f, p) implies collect@
                            == #[trigger] old(self)@.collected_until(p) by {
                            assert(gathered + before.collected_until(p) == old(
                                self,
                            )@.collected_until(p));
                            assert(gathered + Seq::<char>::empty() == gathered);
                        }
                    }
                    break ;
                },
            }
        }
        string_of(&collect)
    }

    /// Advances the iterator past the first item that matches a predicate,
    /// or to the end where none does, and returns the item.
    pub fn find<F: Fn(&char) -> bool>(&mut self, f: F) -> (found: Option<char>)
        requires
            old(self).wf(),
            forall|c: char| #[trigger] f.requires((&c,)),
        ensures
            final(self).wf(),
            forall|p: spec_fn(char) -> bool|
                agrees(f, p) ==> final(self)@ == #[trigger] old(self)@.find(p),
            forall|p: spec_fn(char) -> bool|
                agrees(f, p) ==> found == #[trigger] old(self)@.found(p),
    {
        loop
            invariant
                self.wf(),
                forall|c: char| #[trigger] f.requires((&c,)),
                forall|p: spec_fn(char) -> bool|
                    agrees(f, p) ==> self@.find(p) == #[trigger] old(self)@.find(p),
                forall|p: spec_fn(char) -> bool|
                    agrees(f, p) ==> self@.found(p) == #[trigger] old(self)@.found(p),
            decreases self@.len(),
        {
            proof {
                self.lemma_wf();
                if self@.peek() is Some {
                    self@.lemma_advance();
                }
            }
            match self.next() {
                Some(item) => {
                    if f(&item) {
                        return Some(item);
                    }
                },
                None => {
                    return None;
                },
            }
        }
    }

    /// Collect the next `count` characters, or all that are left where they
    /// are fewer.
    pub fn collect_next(&mut self, count: usize) -> (collected: String)
        requires
            old(self).wf(),
        ensures
            final(self).wf(),
            final(self)@ == old(self)@.advance_by(count as nat),
            collected@ == old(self)@.collected_next(count as nat),
    {
        let mut collection: Vec<char> = Vec::new();
        let mut taken: usize = 0;
        while taken < count
            invariant
                self.wf(),
                taken <= count,
                self@.advance_by((count - taken) as nat) == old(self)@.advance_by(count as nat),
                collection@ + self@.collected_next((count - taken) as nat) == old(
                    self,
                )@.collected_next(count as nat),
            decreases count - taken,
        {
            let ghost before = self@;
            let ghost gathered = collection@;
            if let Some(value) = self.next() {
                collection.push(value);
                proof {
                    assert(gathered.push(value) + self@.collected_next((count - taken - 1) as nat)
                        == gathered + (seq![value] + self@.collected_next(
                        (count - taken - 1) as nat,
                    )));
                }
            } else {
                proof {
                    assert(self@.advance_by((count - taken - 1) as nat) == self@);
                    assert(self@.collected_next((count - taken - 1) as nat) == Seq::<char>::empty());
                }
            }
            taken = taken + 1;
        }
        proof {
            assert(collection@ + Seq::<char>::empty() == collection@);
        }
        string_of(&collection)
    }
}

impl HigherOrderIterator for QueueIterator {
    open spec fn valid(&self) -> bool {
        self.wf()
    }

    open spec fn inner_model(&self) -> MatrixModel {
        self@.inner
    }

    open spec fn ahead(&self) -> Seq<char> {
        self@.front
    }

    /// The stream that the characters come from.
    fn inner(&self) -> (inner: &MatrixIterator) {
        &self.input
    }

    /// The stream that the characters come from, to be changed in place.
    fn inner_mut(&mut self) -> (inner: &mut MatrixIterator) {
        &mut self.input
    }
}

} // verus!
