//! A stream of characters that knows in which row and column it stands.
use vstd::prelude::*;
use crate::html_node::{locus_of, Locus};

verus! {

/// What a [`MatrixIterator`] holds: the characters still to come, the row
/// and column of the next one, the position it reports, and the length of
/// every row that has ended.
pub struct MatrixModel {
    /// The characters not yet consumed.
    pub rest: Seq<char>,
    /// The row of the next character, from 1.
    pub row: usize,
    /// The column of the next character, from 1.
    pub column: usize,
    /// The position that is reported. It stands at the next character or
    /// behind it.
    pub offset: Locus,
    /// The length of each row that has ended, the character that ended it
    /// counted in.
    pub row_lengths: Seq<usize>,
    /// The character that ends a row.
    pub delineator: char,
}

impl MatrixModel {
    /// The stream before anything was consumed from `input`.
    pub open spec fn start(input: Seq<char>, delineator: char) -> MatrixModel {
        MatrixModel {
            rest: input,
            row: 1,
            column: 1,
            offset: (1, 1),
            row_lengths: Seq::empty(),
            delineator,
        }
    }

    /// The rows and columns are consistent with one another, the reported
    /// position is one that the stream has passed or stands at, and no
    /// counter can leave the range of `usize` before the input ends.
    pub open spec fn wf(self) -> bool {
        &&& self.row == self.row_lengths.len() + 1
        &&& self.column >= 1
        &&& self.column + self.rest.len() <= usize::MAX
        &&& self.row + self.rest.len() <= usize::MAX
        &&& forall|i: int|
            0 <= i < self.row_lengths.len() ==> 1 <= #[trigger] self.row_lengths[i] < usize::MAX
        &&& 1 <= self.offset.0 <= self.row
        &&& 1 <= self.offset.1
        &&& self.offset.0 == self.row ==> self.offset.1 <= self.column
        &&& self.offset.0 < self.row ==> self.offset.1 <= self.row_lengths[self.offset.0 - 1]
    }

    /// The reported position.
    pub open spec fn locus(self) -> Locus {
        self.offset
    }

    /// The reported position moved one character on: to the next column, or
    /// to the start of the next row where the row it stands in has ended and
    /// it stands at the row's last character.
    pub open spec fn moved_offset(self) -> Locus {
        if self.offset.0 < self.row && self.offset.1 + 1 > self.row_lengths[self.offset.0 - 1] {
            ((self.offset.0 + 1) as usize, 1)
        } else {
            (self.offset.0, (self.offset.1 + 1) as usize)
        }
    }

    /// The stream after its next character was consumed. The true position
    /// and the reported one both move one character on.
    pub open spec fn advance(self) -> MatrixModel
        recommends
            self.rest.len() > 0,
    {
        if self.rest[0] == self.delineator {
            let ended = MatrixModel { row_lengths: self.row_lengths.push(self.column), ..self };
            MatrixModel {
                rest: self.rest.drop_first(),
                row: (self.row + 1) as usize,
                column: 1,
                offset: if self.offset == (self.row, self.column) {
                    ((self.offset.0 + 1) as usize, 1)
                } else {
                    ended.moved_offset()
                },
                ..ended
            }
        } else {
            MatrixModel {
                rest: self.rest.drop_first(),
                column: (self.column + 1) as usize,
                offset: self.moved_offset(),
                ..self
            }
        }
    }

    /// The stream after `count` characters were consumed, or all of them
    /// where fewer are left.
    pub open spec fn advance_by(self, count: nat) -> MatrixModel
        decreases count,
    {
        if count == 0 || self.rest.len() == 0 {
            self
        } else {
            self.advance().advance_by((count - 1) as nat)
        }
    }

    /// The stream with the reported position one character back. At the
    /// first position of the input there is nothing to go back to, and the
    /// stream stays as it is.
    pub open spec fn left(self) -> MatrixModel {
        if self.offset.1 == 1 {
            if self.offset.0 == 1 {
                self
            } else {
                MatrixModel {
                    offset: ((self.offset.0 - 1) as usize, self.row_lengths[self.offset.0 - 2]),
                    ..self
                }
            }
        } else {
            MatrixModel { offset: (self.offset.0, (self.offset.1 - 1) as usize), ..self }
        }
    }

    /// The stream with the reported position set to the true one.
    pub open spec fn cohere(self) -> MatrixModel {
        MatrixModel { offset: (self.row, self.column), ..self }
    }

    /// The number of rows of the whole input, seen from a stream that has
    /// characters left: a delineator at the very end does not open a row.
    pub open spec fn row_count(self) -> int {
        let end = self.advance_by(self.rest.len());
        if self.rest.len() == 0 {
            self.row as int
        } else if self.rest.last() == self.delineator {
            end.row - 1
        } else {
            end.row as int
        }
    }

    /// Consuming a character keeps the stream well formed, shortens it by
    /// one, and leaves the reported position away from the input's first
    /// position.
    pub proof fn lemma_advance(self)
        requires
            self.wf(),
            self.rest.len() > 0,
        ensures
            self.advance().wf(),
            self.advance().rest == self.rest.drop_first(),
            self.advance().delineator == self.delineator,
            self.advance().offset != (1usize, 1usize),
    {
        let next = self.advance();
        if self.rest[0] == self.delineator {
            let lengths = self.row_lengths.push(self.column);
            assert(next.row_lengths == lengths);
            assert forall|i: int| 0 <= i < lengths.len() implies 1 <= #[trigger] lengths[i]
                < usize::MAX by {
                if i < self.row_lengths.len() {
                    assert(lengths[i] == self.row_lengths[i]);
                }
            }
            if self.offset.0 < self.row {
                assert(lengths[self.offset.0 - 1] == self.row_lengths[self.offset.0 - 1]);
            }
        }
    }

    /// Consuming several characters keeps the stream well formed and takes
    /// them from the front.
    pub proof fn lemma_advance_by(self, count: nat)
        requires
            self.wf(),
        ensures
            self.advance_by(count).wf(),
            self.advance_by(count).delineator == self.delineator,
            count <= self.rest.len() ==> self.advance_by(count).rest == self.rest.skip(count as int),
            count >= self.rest.len() ==> self.advance_by(count).rest.len() == 0,
        decreases count,
    {
        if count == 0 || self.rest.len() == 0 {
            assert(self.rest.skip(0) == self.rest);
        } else {
            self.lemma_advance();
            self.advance().lemma_advance_by((count - 1) as nat);
            if count <= self.rest.len() {
                assert(self.rest.drop_first().skip(count - 1) == self.rest.skip(count as int));
            }
        }
    }

    /// Going back keeps the stream well formed.
    pub proof fn lemma_left(self)
        requires
            self.wf(),
        ensures
            self.left().wf(),
    {
    }
}

/// Compound iterator that can track rows and columns.
/// Useful for keeping track of rows and columns when iterating through
/// two-dimensional data.
pub struct MatrixIterator {
    row: usize,
    column: usize,
    input: Vec<char>,
    next_index: usize,
    offset: [usize; 2],
    row_lengths: Vec<usize>,
    delineator: char,
}

impl View for MatrixIterator {
    type V = MatrixModel;

    closed spec fn view(&self) -> MatrixModel {
        MatrixModel {
            rest: self.input@.skip(self.next_index as int),
            row: self.row,
            column: self.column,
            offset: locus_of(self.offset),
            row_lengths: self.row_lengths@,
            delineator: self.delineator,
        }
    }
}

impl MatrixIterator {
    /// The iterator is in a state that its own methods lead to.
    pub closed spec fn wf(&self) -> bool {
        &&& self.next_index <= self.input.len()
        &&& self@.wf()
    }

    /// A well-formed iterator has a well-formed model.
    pub proof fn lemma_wf(&self)
        requires
            self.wf(),
        ensures
            self@.wf(),
    {
    }

    /// Creates a new matrix iterator.
    /// The delineator is the item that marks the end of a row.
    pub fn new(input: Vec<char>, delineator: char) -> (matrix: MatrixIterator)
        requires
            input.len() < usize::MAX,
        ensures
            matrix.wf(),
            matrix@ == MatrixModel::start(input@, delineator),
    {
        let matrix = MatrixIterator {
            input,
            next_index: 0,
            row: 1,
            column: 1,
            offset: [1, 1],
            row_lengths: Vec::new(),
            delineator,
        };
        assert(matrix.input@.skip(0) == matrix.input@);
        matrix
    }

    /// Get current location in the matrix.
    pub fn locus(&self) -> (position: [usize; 2])
        ensures
            locus_of(position) == self@.locus(),
    {
        self.offset
    }

    /// Gets an array range from a start position to the current position.
    pub fn get_range(&self, start: [usize; 2]) -> (range: [usize; 4])
        ensures
            range[0] == start[0],
            range[1] == start[1],
            range[2] == self@.locus().0,
            range[3] == self@.locus().1,
    {
        let position = self.locus();
        [start[0], start[1], position[0], position[1]]
    }

    /// The next character, where one is left. Both the true position and the
    /// reported one move past it.
    pub fn next(&mut self) -> (item: Option<char>)
        requires
            old(self).wf(),
        ensures
            final(self).wf(),
            old(self)@.rest.len() > 0 ==> item == Some(old(self)@.rest[0]) && final(self)@ == old(
                self,
            )@.advance(),
            old(self)@.rest.len() == 0 ==> item is None && final(self)@ == old(self)@,
    {
        if self.next_index >= self.input.len() {
            return None;
        }
        proof {
            self@.lemma_advance();
        }
        let ghost before = self@;
        let item = self.input[self.next_index];
        assert(before.rest[0] == item);
        self.next_index = self.next_index + 1;
        assert(self.input@.skip(self.next_index as int) == before.rest.drop_first());
        if item == self.delineator {
            self.row_lengths.push(self.column);
            if self.offset[0] == self.row && self.offset[1] == self.column {
                self.offset[0] = self.offset[0] + 1;
                self.offset[1] = 1;
            } else {
                self.move_offset();
            }
            self.row = self.row + 1;
            self.column = 1;
        } else {
            self.move_offset();
            self.column = self.column + 1;
        }
        Some(item)
    }

    /// Consumes the entire iterator and return the number of rows in the
    /// matrix.
    pub fn rows(&mut self) -> (count: usize)
        requires
            old(self).wf(),
        ensures
            final(self).wf(),
            final(self)@ == old(self)@.advance_by(old(self)@.rest.len()),
            count == old(self)@.row_count(),
    {
        let mut last: Option<char> = None;
        let ghost start = self@;
        proof {
            start.lemma_advance_by(0);
        }
        let ghost mut taken: nat = 0;
        loop
            invariant
                self.wf(),
                taken <= start.rest.len(),
                self@ == start.advance_by(taken),
                self@.rest == start.rest.skip(taken as int),
                self@.delineator == start.delineator,
                start.wf(),
                start == old(self)@,
                taken == 0 ==> last is None,
                taken > 0 ==> last == Some(start.rest[taken - 1]),
            ensures
                self.wf(),
                taken == start.rest.len(),
                self@ == start.advance_by(taken),
                self@.delineator == start.delineator,
                taken == 0 ==> last is None,
                taken > 0 ==> last == Some(start.rest[taken - 1]),
            decreases start.rest.len() - taken,
        {
            let ghost current = self@;
            match self.next() {
                Some(item) => {
                    proof {
                        lemma_advance_by_step(start, taken);
                        start.lemma_advance_by(taken + 1);
                        taken = taken + 1;
                    }
                    last = Some(item);
                },
                None => {
                    break;
                },
            }
        }
        assert(taken > 0 ==> start.rest.last() == start.rest[taken - 1]);
        match last {
            Some(value) => {
                if value == self.delineator {
                    self.row - 1
                } else {
                    self.row
                }
            },
            None => self.row,
        }
    }

    /// Shift the position backwards by 1 without calling `next`.
    /// For the rest of the iteration the position returned will be behind
    /// the actual iterator position. At the first position of the input the
    /// position stays where it is.
    pub fn left(&mut self)
        requires
            old(self).wf(),
        ensures
            final(self).wf(),
            final(self)@ == old(self)@.left(),
    {
        if self.offset[1] == 1 {
            if self.offset[0] > 1 {
                self.offset[0] = self.offset[0] - 1;
                self.offset[1] = self.row_lengths[self.offset[0] - 1];
            }
        } else {
            self.offset[1] = self.offset[1] - 1;
        }
    }

    /// The counterpart of `left`. The position never stands ahead of the
    /// iterator, so there is nothing to do.
    pub fn right(&mut self)
        ensures
            *final(self) == *old(self),
    {
    }

    /// Set the matrix position to the position of the iterator.
    /// Undoes all effects of positional methods.
    pub fn cohere(&mut self)
        requires
            old(self).wf(),
        ensures
            final(self).wf(),
            final(self)@ == old(self)@.cohere(),
    {
        self.offset = [self.row, self.column];
    }

    /// Moves the reported position one character on.
    fn move_offset(&mut self)
        requires
            1 <= old(self).offset[0] <= old(self).row <= old(self).row_lengths.len() + 1,
            old(self).offset[0] < usize::MAX,
            old(self).offset[1] < usize::MAX,
        ensures
            final(self)@ == (MatrixModel { offset: old(self)@.moved_offset(), ..old(self)@ }),
            final(self).next_index == old(self).next_index,
            final(self).input == old(self).input,
    {
        if self.offset[0] < self.row {
            let offsets_row_length = self.row_lengths[self.offset[0] - 1];
            if self.offset[1] + 1 > offsets_row_length {
                self.offset[0] = self.offset[0] + 1;
                self.offset[1] = 1;
            } else {
                self.offset[1] = self.offset[1] + 1;
            }
        } else {
            self.offset[1] = self.offset[1] + 1;
        }
    }
}

/// Consuming one character more than `count` is consuming `count` and then
/// one.
pub proof fn lemma_advance_by_step(start: MatrixModel, count: nat)
    requires
        start.wf(),
        count < start.rest.len(),
    ensures
        start.advance_by(count + 1) == start.advance_by(count).advance(),
    decreases count,
{
    if count == 0 {
        assert(start.advance_by(1) == start.advance().advance_by(0));
    } else {
        start.lemma_advance();
        lemma_advance_by_step(start.advance(), (count - 1) as nat);
        assert(start.advance_by(count + 1) == start.advance().advance_by(count));
    }
}

} // verus!
