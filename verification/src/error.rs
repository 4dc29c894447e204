//! Why an operation is refused.

use vstd::prelude::*;

verus! {

/// Why a ledger operation was refused.
///
/// Every operation that returns one of these leaves the ledger exactly as it
/// found it.
#[derive(Debug, Clone, Copy, PartialEq, Eq, Structural)]
pub enum Error {
    /// The shares to redeem exceed the shares outstanding.
    InvalidShare,
    /// The pool's reserve cannot supply what the operation would take from it.
    InsufficientLiquidity,
    /// The account holds less than the amount to be debited.
    InsufficientAmount,
    /// The two deposited amounts do not stand for equal parts of the pool.
    NonEquivalentValue,
    /// The swap would pay out less than the caller's minimum.
    SlippageExceeded,
    /// The deposit is too small to mint a single share.
    ThresholdNotReached,
    /// An amount that must be positive was zero.
    ZeroAmount,
    /// The pool holds no reserves to price against.
    ZeroLiquidity,
    /// The exact result of the arithmetic does not fit in 32 bits.
    Overflow,
}

} // verus!
