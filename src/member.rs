use vstd::prelude::*;

verus! {

/// An opaque participant identifier; two members are the same exactly when
/// their identifiers are equal.
#[derive(Clone, Copy, Debug, PartialEq, Eq, Structural)]
pub struct Member {
    pub id: u64,
}

impl Member {
    pub fn new(id: u64) -> (r: Member)
        ensures
            r.id == id,
    {
        Member { id }
    }
}

/// Why an operation was rejected. A rejected operation changes nothing.
#[derive(Clone, Copy, Debug, PartialEq, Eq, Structural)]
pub enum LedgerError {
    /// The amount was zero or negative.
    InvalidAmount,
    /// The caller is not the member whose balance the operation touches.
    Unauthorized,
    /// The withdrawal exceeds the member's balance.
    InsufficientBalance,
    /// The pool total or the number of logged contributions would leave its bound.
    Overflow,
}

} // verus!
