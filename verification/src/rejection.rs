//! Why an operation on an environment is turned down.

use vstd::prelude::*;

verus! {

/// The reason an illegal transition is rejected. A rejected operation
/// leaves the environment as it was.
#[derive(Clone, Copy, Debug, PartialEq, Eq, Structural)]
pub enum Rejection {
    /// No binding in scope bears the name.
    Undeclared,
    /// The binding's value was moved to another owner.
    UseAfterMove,
    /// The binding's value was released.
    UseAfterDrop,
    /// The binding was not declared mutable.
    ImmutableBinding,
    /// The new value has another shape than the one the binding holds.
    TypeMismatch,
    /// A live borrow of the value stands in the way.
    ConflictingBorrow,
    /// The handle denotes no live borrow.
    UnknownBorrow,
    /// The borrow is shared and gives no right to mutate.
    SharedBorrow,
    /// No scope is open beyond the outermost one.
    NoOpenScope,
}

} // verus!
