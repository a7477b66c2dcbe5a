use vstd::prelude::*;

verus! {

/// Why an operation of this library was refused.
#[derive(Debug, Clone, Copy, PartialEq, Eq, Structural)]
pub enum ErrorKind {
    /// A construction parameter or an input value is outside its domain.
    InvalidParameter,
    /// An opening order needs more margin than the account has in cash.
    InsufficientFunds,
    /// A closing order asks for more volume than the side holds.
    InsufficientPosition,
    /// The order failed some other validation.
    Rejected,
}

} // verus!
