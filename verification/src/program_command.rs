//! The commands that the program knows by name.

use vstd::prelude::*;

verus! {

/// What a caller can ask the program to do.
#[derive(Clone, Copy, Debug, PartialEq, Eq)]
pub enum Command {
    Deposit,
    Withdraw,
    /// Create order
    CreateOrder,
    /// Cancel order
    CancelOrder,
    /// Update order from oracle
    UpdateOrder,
    /// Unlock traders coins and send them
    Unlock,
    /// Set new owner
    SetOwner,
}

} // verus!
