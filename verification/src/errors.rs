use vstd::prelude::*;

verus! {

/// One failure from the operation taxonomy.
///
/// Every precondition check of a core operation happens before any record
/// mutation, so the first violated precondition aborts the whole operation
/// with no partial effect; the failure is surfaced verbatim to the caller.
#[derive(Clone, Copy, Debug, PartialEq, Eq, Structural)]
pub enum AmmError {
    /// The named slot already holds an initialized mint or account.
    AlreadyInitialized,
    /// A transfer or balance mutation named an uninitialized account.
    UninitializedAccount,
    /// An account initialization referenced a mint that is not initialized.
    InvalidMint,
    /// The two sides of a transfer hold different mints.
    MintMismatch,
    /// The caller is not the verified owner of the debited account.
    Unauthorized,
    /// The debited balance is smaller than the requested amount.
    InsufficientFunds,
    /// A checked addition or multiplication would exceed the 64-bit range.
    ArithmeticOverflow,
    /// The slot's backing storage holds less than the rent-exempt minimum.
    NotRentExempt,
    /// The geometric mean of the first deposit rounds down to zero shares.
    InsufficientInitialLiquidity,
    /// The depositor holds fewer pool shares than it asked to redeem.
    InsufficientShares,
    /// A share redemption would pay out zero of one reserve.
    ZeroOutput,
    /// A swap was requested with a zero input amount.
    ZeroInput,
    /// A swap was requested against a pool with an empty reserve.
    InsufficientLiquidity,
    /// The computed amounts fall outside the caller's stated tolerance.
    SlippageExceeded,
    /// A request's byte encoding does not decode to any operation.
    MalformedOperation,
    /// The resolved account list has the wrong length for the operation.
    WrongAccountCount,
}

} // verus!
