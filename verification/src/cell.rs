//! A cell that holds one value and only ever moves whole values in and out.
//!
//! The cell is written through `&mut self`. What a wrapper needs to offer
//! the same two operations behind a shared handle is this type and a way to
//! reach it mutably; the wrapper then decides nothing itself.

use vstd::prelude::*;

verus! {

/// Holds one value of type `T`.
///
/// The value is replaced as a whole by [`Cell::set`] and copied out as a whole
/// by [`Cell::get`]; no reference to the value inside is ever handed out.
pub struct Cell<T> {
    value: T,
}

impl<T> View for Cell<T> {
    type V = T;

    /// The value that the cell holds.
    closed spec fn view(&self) -> T {
        self.value
    }
}

impl<T> Cell<T> {
    /// A cell that holds `value`.
    pub fn new(value: T) -> (cell: Self)
        ensures
            cell@ == value,
    {
        Cell { value }
    }

    /// Replaces the held value by `value`; the previous value is discarded.
    pub fn set(&mut self, value: T)
        ensures
            final(self)@ == value,
        no_unwind
    {
        self.value = value;
    }

    /// A copy of the held value; the cell is left as it was.
    pub fn get(&self) -> (value: T) where T: Copy
        ensures
            value == self@,
    {
        self.value
    }
}

/// Reading after writing gives back what was written.
///
/// `after` stands for a cell as a call `set(v)` leaves it, whatever it held
/// before and however often it was written, and `got` for what a call of
/// `get` on it returns.
pub proof fn get_after_set<T>(after: Cell<T>, v: T, got: T)
    requires
        after@ == v,
        got == after@,
    ensures
        got == v,
{
}

} // verus!
