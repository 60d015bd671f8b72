use vstd::prelude::*;

verus! {

/// Why a vault operation was refused. A refused operation changes nothing.
#[derive(Clone, Copy, Debug, PartialEq, Eq, Structural)]
pub enum VaultError {
    /// `initialize` was called on a vault that already holds its configuration.
    AlreadyInitialized,
    /// The operation needs the configuration, and `initialize` has not run yet.
    NotInitialized,
    /// An amount (or a total that a conversion reads) is negative.
    InvalidAmount,
    /// A checked addition or multiplication left the `i128` range.
    MathOverflow,
    /// The owner holds fewer shares than the operation has to burn.
    InsufficientShares { available: i128, required: i128 },
}

} // verus!
