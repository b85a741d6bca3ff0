use vstd::prelude::*;

use crate::decimal::Decimal;

verus! {

/// The record a non-absent cell holds: the sum of the weights of all live
/// contributions and their current weighted mean.
#[derive(Clone, Copy, Debug, PartialEq, Eq, Structural)]
pub struct State {
    /// The total voting weight in the average.
    pub total: u64,
    /// The most recent average.
    pub average: Decimal,
}

impl State {
    /// The record as a pair of mathematical integers: the total weight and
    /// the atomics of the average.
    pub open spec fn model(self) -> (int, int) {
        (self.total as int, self.average@)
    }
}

/// A scalar cell: a slot that is either absent or holds one `State` record.
/// Reads never fail; absence is an ordinary state, distinct from a record
/// with total zero. An enclosing host is expected to persist the cell
/// atomically with the operation that changed it.
#[derive(Clone, Copy, Debug, PartialEq, Eq, Structural)]
pub struct ScalarCell {
    state: Option<State>,
}

impl View for ScalarCell {
    type V = Option<(int, int)>;

    closed spec fn view(&self) -> Option<(int, int)> {
        match self.state {
            Some(s) => Some(s.model()),
            None => None,
        }
    }
}

impl ScalarCell {
    /// A fresh, absent cell.
    pub fn new() -> (c: ScalarCell)
        ensures
            c@ is None,
    {
        ScalarCell { state: None }
    }

    /// The current record, or `None` while the cell is absent. No side
    /// effect.
    pub fn load(&self) -> (r: Option<State>)
        ensures
            match r {
                Some(s) => self@ == Some(s.model()),
                None => self@ is None,
            },
    {
        self.state
    }

    /// Overwrites the cell with `s` unconditionally.
    pub fn store(&mut self, s: State)
        ensures
            final(self)@ == Some(s.model()),
    {
        self.state = Some(s);
    }

    /// Transitions the cell to absence.
    pub fn clear(&mut self)
        ensures
            final(self)@ is None,
    {
        self.state = None;
    }
}

} // verus!
