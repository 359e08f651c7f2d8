//! What a key stands for while its value is computed, and for as long as it is kept.

use vstd::prelude::*;

use crate::once::once_cell::OnceCell;
use crate::state::CellState;

verus! {

/// A cell, and the number of calls that are under way on it.
pub(crate) struct Entry<V> {
    cell: OnceCell<V>,
    active_calls: usize,
}

impl<V> Entry<V> {
    /// What the cell holds.
    pub closed spec fn cell(&self) -> CellState<V> {
        self.cell@
    }

    /// The number of calls under way.
    pub closed spec fn active_calls(&self) -> nat {
        self.active_calls as nat
    }

    /// Creates an entry without a value and without calls.
    pub fn new() -> (entry: Self)
        ensures
            entry.cell() == CellState::<V>::Empty,
            entry.active_calls() == 0,
    {
        Self { cell: OnceCell::new(), active_calls: 0 }
    }

    /// Creates an entry that holds `value`, without calls.
    pub fn from_value(value: V) -> (entry: Self)
        ensures
            entry.cell() == CellState::Ready(value),
            entry.active_calls() == 0,
    {
        Self { cell: OnceCell::from_value(value), active_calls: 0 }
    }

    /// Counts one more call. There is room for it.
    pub fn acquire(&mut self)
        requires
            old(self).active_calls() < usize::MAX,
        ensures
            final(self).active_calls() == old(self).active_calls() + 1,
            final(self).cell() == old(self).cell(),
    {
        self.active_calls = self.active_calls + 1;
    }

    /// Counts one call less, and tells whether it was the last.
    pub fn release(&mut self) -> (last: bool)
        requires
            old(self).active_calls() > 0,
        ensures
            final(self).active_calls() == old(self).active_calls() - 1,
            final(self).cell() == old(self).cell(),
            last <==> old(self).active_calls() == 1,
    {
        let active_calls: usize = self.active_calls;
        self.active_calls = active_calls - 1;
        active_calls == 1
    }

    /// The number of calls under way.
    pub fn count(&self) -> (calls: usize)
        ensures
            calls == self.active_calls(),
    {
        self.active_calls
    }

    /// The value, if there is one.
    pub fn get(&self) -> (value: Option<&V>)
        ensures
            match value {
                Some(v) => self.cell() == CellState::Ready(*v),
                None => !(self.cell() is Ready),
            },
    {
        self.cell.get()
    }

    /// Starts the computation of the value on behalf of `call`, where none runs and there is no
    /// value. Tells whether it did.
    pub fn begin(&mut self, call: Ghost<nat>) -> (started: bool)
        ensures
            final(self).active_calls() == old(self).active_calls(),
            started <==> old(self).cell() is Empty,
            final(self).cell() == if started {
                CellState::Running(call@)
            } else {
                old(self).cell()
            },
    {
        self.cell.begin(call)
    }

    /// Ends the running computation with its value.
    pub fn set(&mut self, value: V)
        requires
            old(self).cell() is Running,
        ensures
            final(self).active_calls() == old(self).active_calls(),
            final(self).cell() == CellState::Ready(value),
    {
        self.cell.set(value)
    }

    /// Ends the running computation without a value.
    pub fn reset(&mut self)
        requires
            old(self).cell() is Running,
        ensures
            final(self).active_calls() == old(self).active_calls(),
            final(self).cell() == CellState::<V>::Empty,
    {
        self.cell.reset()
    }
}

} // verus!
