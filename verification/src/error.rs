//! What can go wrong in an operation on two operands, or on the way to the
//! backend.

use vstd::prelude::*;

verus! {

/// Why an operation did not take place.
///
/// A request for a row, column, diagonal or sub-rectangle that does not exist
/// is no error: such a request is answered with `None`.
#[derive(Clone, Copy, Debug, PartialEq, Eq, Structural)]
pub enum Error {
    /// The operands do not have the shapes that the operation needs.
    ShapeMismatch,
    /// A count or a stride does not fit the index type of the backend.
    Overflow,
}

} // verus!
