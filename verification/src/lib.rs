//! A two-asset constant-product liquidity pool ledger.
//!
//! The pool holds reserves of two tokens, mints and burns shares for the
//! accounts that provide liquidity, and swaps one token for the other along
//! the curve `reserve_a * reserve_b = const`, less a fee in parts per thousand.

pub mod error;
pub mod pricing;
pub mod holdings;
pub mod ledger;
pub mod validity;
pub mod pool;
pub mod laws;

pub use error::Error;
pub use holdings::Holdings;
pub use ledger::Ledger;
pub use pool::Amm;
