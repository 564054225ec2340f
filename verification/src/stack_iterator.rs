//! A character stream onto which characters can be stacked: the one that
//! was put on last is read first.
use vstd::prelude::*;
use crate::high_order_iterator::HigherOrderIterator;
use crate::matrix_iterator::{MatrixIterator, MatrixModel};

verus! {

/// What a [`StackIterator`] holds: the characters that were put in front,
/// the one that is read first at the end, and the stream behind them.
pub struct StackModel {
    pub front: Seq<char>,
    pub inner: MatrixModel,
}

impl StackModel {
    /// The character that is read next, where one is left.
    pub open spec fn peek(self) -> Option<char> {
        if self.front.len() > 0 {
            Some(self.front.last())
        } else if self.inner.rest.len() > 0 {
            Some(self.inner.rest[0])
        } else {
            None
        }
    }

    /// The stream after its next character was read.
    pub open spec fn advance(self) -> StackModel {
        if self.front.len() > 0 {
            StackModel { front: self.front.drop_last(), ..self }
        } else if self.inner.rest.len() > 0 {
            StackModel { inner: self.inner.advance(), ..self }
        } else {
            self
        }
    }

    /// The stream after `c` was put in front. It is read before the
    /// characters that were put there before it.
    pub open spec fn push(self, c: char) -> StackModel {
        StackModel { front: self.front.push(c), ..self }
    }
}

/// A compound iterator that allows you to add elements in front of the
/// sequence and give them priority.
pub struct StackIterator {
    front: Vec<char>,
    input: MatrixIterator,
}

impl View for StackIterator {
    type V = StackModel;

    closed spec fn view(&self) -> StackModel {
        StackModel { front: self.front@, inner: self.input@ }
    }
}

impl StackIterator {
    /// The iterator is in a state that its own methods lead to.
    pub closed spec fn wf(&self) -> bool {
        self.input.wf()
    }

    /// The iterator over `input`, with no character put in front.
    pub fn new(input: MatrixIterator) -> (iter: StackIterator)
        requires
            input.wf(),
        ensures
            iter.wf(),
            iter@ == (StackModel { front: Seq::empty(), inner: input@ }),
    {
        StackIterator { input, front: Vec::new() }
    }

    /// Put an item in front of the iterator.
    pub fn push(&mut self, item: char)
        requires
            old(self).wf(),
        ensures
            final(self).wf(),
            final(self)@ == old(self)@.push(item),
    {
        self.front.push(item)
    }

    /// The next character: the one that was put in front last, or the next
    /// one of the source.
    pub fn next(&mut self) -> (item: Option<char>)
        requires
            old(self).wf(),
        ensures
            final(self).wf(),
            item == old(self)@.peek(),
            final(self)@ == old(self)@.advance(),
    {
        if self.front.len() > 0 {
            self.front.pop()
        } else {
            self.input.next()
        }
    }
}

impl HigherOrderIterator for StackIterator {
    open spec fn valid(&self) -> bool {
        self.wf()
    }

    open spec fn inner_model(&self) -> MatrixModel {
        self@.inner
    }

    open spec fn ahead(&self) -> Seq<char> {
        self@.front
    }

    /// The stream that the characters come from.
    fn inner(&self) -> (inner: &MatrixIterator) {
        &self.input
    }

    /// The stream that the characters come from, to be changed in place.
    fn inner_mut(&mut self) -> (inner: &mut MatrixIterator) {
        &mut self.input
    }
}

} // verus!
