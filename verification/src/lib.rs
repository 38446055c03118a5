//! A token ledger combined with an automated-market-maker liquidity pool.
//!
//! The ledger tracks fungible-token balances under mint authorities; the pool
//! lets users deposit two token reserves to mint pool-share tokens, withdraw
//! reserves by burning shares, and swap one token for the other against the
//! pooled reserves. Every operation validates before it mutates, so a failure
//! leaves every record unchanged, and every balance change is proved to
//! conserve each mint's total supply.

pub mod errors;
pub mod instruction;
pub mod ledger;
pub mod math;
pub mod pool;
pub mod rent;
pub mod swap_engine;

use vstd::prelude::*;

verus! {

/// A ledger operation succeeds with no further value, or reports exactly one
/// failure from the taxonomy and leaves every record unchanged.
pub type OpResult = Result<(), errors::AmmError>;

} // verus!
