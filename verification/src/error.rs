use vstd::prelude::*;

verus! {

/// The two failures an average operation can report. Both abort the
/// enclosing operation; no state is written when one is returned.
#[derive(Clone, Copy, Debug, PartialEq, Eq, Structural)]
pub enum CwaError {
    /// A checked arithmetic step produced a value outside the representable
    /// range, or a subtraction crossed zero.
    ArithmeticOverflow,
    /// A removal was requested while the cell is absent.
    UnderflowOnEmpty,
}

} // verus!
