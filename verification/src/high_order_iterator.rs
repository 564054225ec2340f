//! Iterators that wrap around another iterator.
use vstd::prelude::*;
use crate::matrix_iterator::{MatrixIterator, MatrixModel};

verus! {

/// Defines an interface for iterators that wrap around the character stream
/// of a source.
pub trait HigherOrderIterator {
    /// The iterator is in a state that its own methods lead to.
    spec fn valid(&self) -> bool;

    /// What the inner stream holds.
    spec fn inner_model(&self) -> MatrixModel;

    /// The characters that the iterator gives out before it goes on with
    /// the inner stream.
    spec fn ahead(&self) -> Seq<char>;

    /// The inner stream.
    fn inner(&self) -> (inner: &MatrixIterator)
        requires
            self.valid(),
        ensures
            inner.wf(),
            inner@ == self.inner_model(),
    ;

    /// The inner stream, to be changed in place. The iterator stays valid
    /// as long as the inner stream is well formed when it is handed back.
    fn inner_mut(&mut self) -> (inner: &mut MatrixIterator)
        requires
            old(self).valid(),
        ensures
            inner.wf(),
            inner@ == old(self).inner_model(),
            final(inner).wf() ==> final(self).valid(),
            final(self).inner_model() == final(inner)@,
            final(self).ahead() == old(self).ahead(),
    ;
}

} // verus!
