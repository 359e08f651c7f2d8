//! A cell that is filled by at most one computation at a time.

use vstd::prelude::*;

use crate::state::CellState;

verus! {

/// A cell that holds no value at first, and keeps the first value that is stored in it.
///
/// A computation of the value starts with [`OnceCell::begin`]. While it runs no other can start.
/// It ends with [`OnceCell::set`], or with [`OnceCell::reset`] where it gave no value.
pub(crate) enum OnceCell<V> {
    /// No value, and nobody computes one.
    Empty,
    /// No value, and the named call computes one.
    Running(Ghost<nat>),
    /// The value.
    Ready(V),
}

impl<V> View for OnceCell<V> {
    type V = CellState<V>;

    closed spec fn view(&self) -> CellState<V> {
        match *self {
            OnceCell::Empty => CellState::Empty,
            OnceCell::Running(call) => CellState::Running(call@),
            OnceCell::Ready(value) => CellState::Ready(value),
        }
    }
}

impl<V> OnceCell<V> {
    /// Creates a cell without a value.
    pub fn new() -> (cell: Self)
        ensures
            cell@ == CellState::<V>::Empty,
    {
        OnceCell::Empty
    }

    /// Creates a cell that holds `value`.
    pub fn from_value(value: V) -> (cell: Self)
        ensures
            cell@ == CellState::Ready(value),
    {
        OnceCell::Ready(value)
    }

    /// The value, if there is one.
    pub fn get(&self) -> (value: Option<&V>)
        ensures
            match value {
                Some(v) => self@ == CellState::Ready(*v),
                None => !(self@ is Ready),
            },
    {
        match self {
            OnceCell::Ready(value) => Some(value),
            _ => None,
        }
    }

    /// Starts the computation of the value on behalf of `call`, unless there is a value or another
    /// computation runs. Tells whether it did.
    pub fn begin(&mut self, call: Ghost<nat>) -> (started: bool)
        ensures
            started <==> old(self)@ is Empty,
            final(self)@ == if started {
                CellState::Running(call@)
            } else {
                old(self)@
            },
    {
        match self {
            OnceCell::Empty => {
                *self = OnceCell::Running(call);
                true
            },
            _ => false,
        }
    }

    /// Ends the running computation with its value.
    pub fn set(&mut self, value: V)
        requires
            old(self)@ is Running,
        ensures
            final(self)@ == CellState::Ready(value),
    {
        *self = OnceCell::Ready(value);
    }

    /// Ends the running computation without a value.
    pub fn reset(&mut self)
        requires
            old(self)@ is Running,
        ensures
            final(self)@ == CellState::<V>::Empty,
    {
        *self = OnceCell::Empty;
    }
}

} // verus!
