//! The ways in which a request to the contract is refused.

use vstd::prelude::*;

verus! {

/// Why an operation was refused. A refused operation changes nothing.
#[derive(Debug, Clone, Copy, PartialEq, Eq, Structural)]
pub enum AmmError {
    /// An amount overflowed or went below zero, or a divisor was zero.
    ArithmeticOverflow,
    /// The pool has no token for the requested outcome.
    MissingOutcomeToken,
    /// The trade would give fewer shares than the minimum asked for, or take
    /// more than the maximum allowed.
    SlippageExceeded,
    /// No market has the requested id.
    MarketNotFound,
    /// The collateral token is not on the whitelist.
    TokenNotWhitelisted,
    /// Only the governance account may do this.
    NotGovernance,
    /// A transfer of zero tokens was received.
    ZeroAmount,
    /// The attached deposit does not cover the storage used.
    DepositTooSmall,
}

} // verus!
