use vstd::prelude::*;

verus! {

/// Associativity of an infix operator.
#[derive(Clone, Copy, Debug, PartialEq, Eq, Structural)]
pub enum InfixDirection {
    Left,
    Right,
    Non,
}

} // verus!
