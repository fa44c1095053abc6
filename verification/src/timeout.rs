use vstd::prelude::*;

verus! {

/// Returned when an operation exceeds its deadline; carries the budget in
/// nanoseconds.
#[derive(Debug, Clone, Copy, PartialEq, Eq, Structural)]
pub struct TimeoutError(pub u64);

} // verus!
