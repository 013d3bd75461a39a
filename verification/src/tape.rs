use vstd::prelude::*;
use vstd::arithmetic::div_mod::{
    lemma_add_mod_noop, lemma_mod_add_multiples_vanish, lemma_mod_self_0, lemma_small_mod,
};

verus! {

/// A cell's value after one is added to it: 255 goes to 0.
pub open spec fn cell_after_add(value: u8) -> u8 {
    if value == 255 {
        0u8
    } else {
        (value + 1) as u8
    }
}

/// A cell's value after one is taken from it: 0 goes to 255.
pub open spec fn cell_after_subtract(value: u8) -> u8 {
    if value == 0 {
        255u8
    } else {
        (value - 1) as u8
    }
}

/// The index to the right of `current` on a circle of `length` places.
pub open spec fn index_after_increment(current: int, length: int) -> int {
    (current + 1) % length
}

/// The index to the left of `current` on a circle of `length` places.
pub open spec fn index_after_decrement(current: int, length: int) -> int {
    (current - 1 + length) % length
}

/// On a circle both moves stay on the circle, step by one place where there
/// is room, and wrap at the ends: right of the last place is the first, left
/// of the first is the last.
pub proof fn lemma_index_wraps(current: int, length: int)
    requires
        0 <= current < length,
    ensures
        0 <= index_after_increment(current, length) < length,
        0 <= index_after_decrement(current, length) < length,
        index_after_increment(current, length) == if current == length - 1 {
            0
        } else {
            current + 1
        },
        index_after_decrement(current, length) == if current == 0 {
            length - 1
        } else {
            current - 1
        },
{
    if current == length - 1 {
        lemma_mod_self_0(length);
    } else {
        lemma_small_mod((current + 1) as nat, length as nat);
    }
    lemma_mod_add_multiples_vanish(current - 1, length);
    if current == 0 {
        lemma_small_mod((length - 1) as nat, length as nat);
    } else {
        lemma_small_mod((current - 1) as nat, length as nat);
    }
}

/// Each move undoes the other.
pub proof fn lemma_moves_are_inverse(current: int, length: int)
    requires
        0 <= current < length,
    ensures
        index_after_decrement(index_after_increment(current, length), length) == current,
        index_after_increment(index_after_decrement(current, length), length) == current,
{
    lemma_index_wraps(current, length);
    lemma_index_wraps(index_after_increment(current, length), length);
    lemma_index_wraps(index_after_decrement(current, length), length);
}

/// Adding one and taking one undo each other, and 255 and 0 are neighbours.
pub proof fn lemma_cell_wraps(value: u8)
    ensures
        cell_after_add(255) == 0,
        cell_after_subtract(0) == 255,
        cell_after_subtract(cell_after_add(value)) == value,
        cell_after_add(cell_after_subtract(value)) == value,
{
}

/// Adds one to the cell at `stack_pointer`, wrapping from 255 to 0.
pub fn add(stack_pointer: usize, stack: &mut Vec<u8>)
    requires
        stack_pointer < old(stack).len(),
    ensures
        final(stack)@ == old(stack)@.update(
            stack_pointer as int,
            cell_after_add(old(stack)@[stack_pointer as int]),
        ),
{
    let value: u8 = stack[stack_pointer];
    stack[stack_pointer] = value.wrapping_add(1);
}

/// Takes one from the cell at `stack_pointer`, wrapping from 0 to 255.
pub fn subtract(stack_pointer: usize, stack: &mut Vec<u8>)
    requires
        stack_pointer < old(stack).len(),
    ensures
        final(stack)@ == old(stack)@.update(
            stack_pointer as int,
            cell_after_subtract(old(stack)@[stack_pointer as int]),
        ),
{
    let value: u8 = stack[stack_pointer];
    stack[stack_pointer] = value.wrapping_sub(1);
}

/// Moves an index one place to the right on a circle of `length` places:
/// the last place is followed by the first.
pub fn increment(current: usize, length: usize) -> (next: usize)
    requires
        length > 0,
    ensures
        next == index_after_increment(current as int, length as int),
        next < length,
        current + 1 < length ==> next == current + 1,
        current + 1 == length ==> next == 0,
{
    let place: usize = current % length;
    proof {
        lemma_add_mod_noop(current as int, 1, length as int);
        if place + 1 < length {
            lemma_small_mod((place + 1) as nat, length as nat);
        } else {
            lemma_mod_self_0(length as int);
        }
        if 1 < length {
            lemma_small_mod(1, length as nat);
        }
        if current < length {
            lemma_small_mod(current as nat, length as nat);
        }
    }
    if place == length - 1 {
        0
    } else {
        place + 1
    }
}

/// Moves an index one place to the left on a circle of `length` places:
/// the first place is preceded by the last.
pub fn decrement(current: usize, length: usize) -> (next: usize)
    requires
        length > 0,
    ensures
        next == index_after_decrement(current as int, length as int),
        next < length,
        0 < current <= length ==> next == current - 1,
        current == 0 ==> next == length - 1,
{
    proof {
        lemma_mod_add_multiples_vanish(current - 1, length as int);
        if current == 0 {
            lemma_small_mod((length - 1) as nat, length as nat);
        } else if current <= length {
            lemma_small_mod((current - 1) as nat, length as nat);
        }
    }
    if current == 0 {
        length - 1
    } else {
        (current - 1) % length
    }
}

/// What a tape is to a contract: its cells and the index of the current one.
pub ghost struct TapeState {
    pub cells: Seq<u8>,
    pub pointer: int,
}

/// A circular tape of byte cells with a data pointer. Its length is fixed when
/// it is made.
pub struct Tape {
    cells: Vec<u8>,
    pointer: usize,
}

impl View for Tape {
    type V = TapeState;

    closed spec fn view(&self) -> TapeState {
        TapeState { cells: self.cells@, pointer: self.pointer as int }
    }
}

impl Tape {
    /// The data pointer stands on a cell of the tape.
    pub open spec fn wf(&self) -> bool {
        0 <= self@.pointer < self@.cells.len()
    }

    /// A tape of `length` cells, all zero, with the data pointer on the first.
    pub fn new(length: usize) -> (tape: Tape)
        requires
            length > 0,
        ensures
            tape.wf(),
            tape@.cells == Seq::new(length as nat, |i: int| 0u8),
            tape@.pointer == 0,
    {
        let cells: Vec<u8> = vec![0u8; length];
        Tape { cells, pointer: 0 }
    }

    /// The number of cells.
    pub fn len(&self) -> (length: usize)
        ensures
            length == self@.cells.len(),
    {
        self.cells.len()
    }

    /// The index of the current cell.
    pub fn pointer(&self) -> (pointer: usize)
        ensures
            pointer == self@.pointer,
    {
        self.pointer
    }

    /// Adds one to the current cell, wrapping from 255 to 0.
    pub fn increment_cell(&mut self)
        requires
            old(self).wf(),
        ensures
            final(self)@ == (TapeState {
                cells: old(self)@.cells.update(
                    old(self)@.pointer,
                    cell_after_add(old(self)@.cells[old(self)@.pointer]),
                ),
                pointer: old(self)@.pointer,
            }),
            final(self).wf(),
    {
        self::add(self.pointer, &mut self.cells);
    }

    /// Takes one from the current cell, wrapping from 0 to 255.
    pub fn decrement_cell(&mut self)
        requires
            old(self).wf(),
        ensures
            final(self)@ == (TapeState {
                cells: old(self)@.cells.update(
                    old(self)@.pointer,
                    cell_after_subtract(old(self)@.cells[old(self)@.pointer]),
                ),
                pointer: old(self)@.pointer,
            }),
            final(self).wf(),
    {
        self::subtract(self.pointer, &mut self.cells);
    }

    /// Moves the data pointer one cell to the right; from the last cell it
    /// goes to the first.
    pub fn move_right(&mut self)
        requires
            old(self).wf(),
        ensures
            final(self)@ == (TapeState {
                cells: old(self)@.cells,
                pointer: index_after_increment(
                    old(self)@.pointer,
                    old(self)@.cells.len() as int,
                ),
            }),
            final(self).wf(),
    {
        self.pointer = increment(self.pointer, self.cells.len());
    }

    /// Moves the data pointer one cell to the left; from the first cell it
    /// goes to the last.
    pub fn move_left(&mut self)
        requires
            old(self).wf(),
        ensures
            final(self)@ == (TapeState {
                cells: old(self)@.cells,
                pointer: index_after_decrement(
                    old(self)@.pointer,
                    old(self)@.cells.len() as int,
                ),
            }),
            final(self).wf(),
    {
        self.pointer = decrement(self.pointer, self.cells.len());
    }

    /// The value of the current cell.
    pub fn read_cell(&self) -> (value: u8)
        requires
            self.wf(),
        ensures
            value == self@.cells[self@.pointer],
    {
        self.cells[self.pointer]
    }

    /// Stores `value` in the current cell.
    pub fn write_cell(&mut self, value: u8)
        requires
            old(self).wf(),
        ensures
            final(self)@ == (TapeState {
                cells: old(self)@.cells.update(old(self)@.pointer, value),
                pointer: old(self)@.pointer,
            }),
            final(self).wf(),
    {
        self.cells[self.pointer] = value;
    }
}

} // verus!
