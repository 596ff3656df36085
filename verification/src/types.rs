use vstd::prelude::*;

verus! {

/// The denomination a price or a payment is expressed in.
#[derive(Clone, Copy, Debug, PartialEq, Eq, Structural)]
pub enum TokenType {
    RET,
    ICP,
}

} // verus!
