//! The ledger as a mathematical value, and what each operation makes of it.
//!
//! The executable ledger is specified against this model: for every
//! operation, when it is refused and why, what it returns, and the ledger
//! that it leaves.

use vstd::prelude::*;
use crate::error::Error;
use crate::holdings::{shares_held, Holdings};
use crate::pricing::{
    curve_input, curve_output, gross_of_fee, net_of_fee, scaled, BOOTSTRAP_SHARES, FEE_DENOMINATOR,
};

verus! {

/// Whether an account may be debited by `amount`.
pub open spec fn amount_refusal(available: nat, amount: nat) -> Option<Error> {
    if amount == 0 {
        Some(Error::ZeroAmount)
    } else if amount > available {
        Some(Error::InsufficientAmount)
    } else {
        None
    }
}

/// An amount as a result: itself where 32 bits hold it.
pub open spec fn representable(amount: nat) -> Result<nat, Error> {
    if amount > u32::MAX {
        Err(Error::Overflow)
    } else {
        Ok(amount)
    }
}

/// The ledger as a mathematical value: the pool's reserves and outstanding
/// shares, the fee rate in parts per thousand, and the holdings of every
/// account that was ever credited.
#[verifier::ext_equal]
pub struct Ledger {
    pub reserve_a: nat,
    pub reserve_b: nat,
    pub total_shares: nat,
    pub fee_rate: nat,
    pub accounts: Map<Seq<char>, Holdings>,
}

impl Ledger {
    /// A ledger on which nothing has happened yet.
    pub open spec fn fresh(fee_rate: nat) -> Ledger {
        Ledger { reserve_a: 0, reserve_b: 0, total_shares: 0, fee_rate, accounts: Map::empty() }
    }

    /// What `id` holds; nothing, if it was never credited.
    pub open spec fn holdings(self, id: Seq<char>) -> Holdings {
        if self.accounts.contains_key(id) {
            self.accounts[id]
        } else {
            Holdings::nothing()
        }
    }

    /// The pool has liquidity to price against.
    pub open spec fn is_active(self) -> bool {
        self.reserve_a * self.reserve_b > 0
    }

    /// What holds of every ledger that the operations can reach:
    ///
    /// - the fee rate is below a thousand;
    /// - every amount fits in 32 bits;
    /// - the accounts are finitely many;
    /// - the shares outstanding are the sum of the shares of all accounts;
    /// - the pool holds either nothing of both tokens and has no shares
    ///   outstanding, or something of both and has some.
    pub open spec fn valid(self) -> bool {
        &&& self.fee_rate < FEE_DENOMINATOR
        &&& self.reserve_a <= u32::MAX
        &&& self.reserve_b <= u32::MAX
        &&& self.total_shares <= u32::MAX
        &&& self.accounts.dom().finite()
        &&& forall|id: Seq<char>| #[trigger]
            self.accounts.contains_key(id) ==> self.accounts[id].bounded()
        &&& self.total_shares == shares_held(self.accounts)
        &&& (self.total_shares == 0) == (self.reserve_a == 0)
        &&& (self.total_shares == 0) == (self.reserve_b == 0)
    }

    /// The ledger with the holdings of `id` replaced.
    pub open spec fn with_holdings(self, id: Seq<char>, held: Holdings) -> Ledger {
        Ledger { accounts: self.accounts.insert(id, held), ..self }
    }

    /// The ledger once `id` was credited with free tokens.
    pub open spec fn seeded(self, id: Seq<char>, amount_a: nat, amount_b: nat) -> Ledger {
        let held = self.holdings(id);
        self.with_holdings(
            id,
            Holdings {
                token_a: held.token_a + amount_a,
                token_b: held.token_b + amount_b,
                shares: held.shares,
            },
        )
    }

    /// What `amount_b` of token B is worth in token A at the ratio of the
    /// reserves, fees left aside.
    pub open spec fn spot_value_in_a(self, amount_b: nat) -> Result<nat, Error> {
        if !self.is_active() {
            Err(Error::ZeroLiquidity)
        } else {
            representable(scaled(self.reserve_a, amount_b, self.reserve_b))
        }
    }

    /// What `amount_a` of token A is worth in token B at the ratio of the
    /// reserves, fees left aside.
    pub open spec fn spot_value_in_b(self, amount_a: nat) -> Result<nat, Error> {
        if !self.is_active() {
            Err(Error::ZeroLiquidity)
        } else {
            representable(scaled(self.reserve_b, amount_a, self.reserve_a))
        }
    }

    /// The part of each reserve that `share` shares stand for, rounded down.
    pub open spec fn withdrawal_quote(self, share: nat) -> Result<(nat, nat), Error> {
        if !self.is_active() {
            Err(Error::ZeroLiquidity)
        } else if share > self.total_shares {
            Err(Error::InvalidShare)
        } else {
            Ok(
                (
                    scaled(self.reserve_a, share, self.total_shares),
                    scaled(self.reserve_b, share, self.total_shares),
                ),
            )
        }
    }

    /// The token B that the curve pays for `amount_a` of token A, the fee
    /// taken from the input first.
    ///
    /// Where the input is too small to move the B reserve, one unit is taken
    /// off the output, so that no swap is free; that is one unit below zero,
    /// which is no amount.
    pub open spec fn swap_quote_a_for_b(self, amount_a: nat) -> Result<nat, Error> {
        let amount_b = curve_output(
            self.reserve_a,
            self.reserve_b,
            net_of_fee(amount_a, self.fee_rate),
        );
        if !self.is_active() {
            Err(Error::ZeroLiquidity)
        } else if amount_b == 0 {
            Err(Error::Overflow)
        } else {
            Ok(amount_b)
        }
    }

    /// The token A that goes with `amount_b` of token B: what the curve asks
    /// on the A side for `amount_b` to leave the B reserve, the fee added on.
    ///
    /// The curve never gives up a whole reserve, so `amount_b` must stay
    /// below it. Nothing is taken off an amount that moves nothing, as it is
    /// in the other direction: for no token B, no token A is asked.
    pub open spec fn swap_quote_b_for_a(self, amount_b: nat) -> Result<nat, Error> {
        if !self.is_active() {
            Err(Error::ZeroLiquidity)
        } else if amount_b >= self.reserve_b {
            Err(Error::InsufficientLiquidity)
        } else {
            representable(
                gross_of_fee(curve_input(self.reserve_a, self.reserve_b, amount_b), self.fee_rate),
            )
        }
    }

    /// The shares that a deposit of `amount_a` mints: a fixed amount into an
    /// empty pool, else the part of the outstanding shares that `amount_a` is
    /// of its reserve, rounded down.
    pub open spec fn shares_for_deposit(self, amount_a: nat) -> nat {
        if self.total_shares == 0 {
            BOOTSTRAP_SHARES as nat
        } else {
            scaled(self.total_shares, amount_a, self.reserve_a)
        }
    }

    /// Why a deposit is refused, if it is. The checks come in this order.
    pub open spec fn deposit_refusal(self, id: Seq<char>, amount_a: nat, amount_b: nat) -> Option<
        Error,
    > {
        let held = self.holdings(id);
        let minted = self.shares_for_deposit(amount_a);
        if amount_refusal(held.token_a, amount_a) is Some {
            amount_refusal(held.token_a, amount_a)
        } else if amount_refusal(held.token_b, amount_b) is Some {
            amount_refusal(held.token_b, amount_b)
        } else if self.total_shares != 0 && scaled(self.total_shares, amount_a, self.reserve_a)
            != scaled(self.total_shares, amount_b, self.reserve_b) {
            Some(Error::NonEquivalentValue)
        } else if minted == 0 {
            Some(Error::ThresholdNotReached)
        } else if self.total_shares + minted > u32::MAX || self.reserve_a + amount_a > u32::MAX
            || self.reserve_b + amount_b > u32::MAX {
            Some(Error::Overflow)
        } else {
            None
        }
    }

    /// The ledger once `id` has deposited: the tokens move from the account to
    /// the reserves, and the minted shares go to the account.
    pub open spec fn after_deposit(self, id: Seq<char>, amount_a: nat, amount_b: nat) -> Ledger {
        let held = self.holdings(id);
        let minted = self.shares_for_deposit(amount_a);
        Ledger {
            reserve_a: self.reserve_a + amount_a,
            reserve_b: self.reserve_b + amount_b,
            total_shares: self.total_shares + minted,
            ..self
        }.with_holdings(
            id,
            Holdings {
                token_a: (held.token_a - amount_a) as nat,
                token_b: (held.token_b - amount_b) as nat,
                shares: held.shares + minted,
            },
        )
    }

    /// Why a withdrawal is refused, if it is. The checks come in this order.
    pub open spec fn withdrawal_refusal(self, id: Seq<char>, share: nat) -> Option<Error> {
        let held = self.holdings(id);
        if amount_refusal(held.shares, share) is Some {
            amount_refusal(held.shares, share)
        } else {
            match self.withdrawal_quote(share) {
                Err(e) => Some(e),
                Ok((amount_a, amount_b)) => if held.token_a + amount_a > u32::MAX || held.token_b
                    + amount_b > u32::MAX {
                    Some(Error::Overflow)
                } else {
                    None
                },
            }
        }
    }

    /// The ledger once `id` has redeemed `share` shares for `amount_a` and
    /// `amount_b`: the shares are burned, and the tokens move from the
    /// reserves to the account.
    pub open spec fn after_withdrawal(
        self,
        id: Seq<char>,
        share: nat,
        amount_a: nat,
        amount_b: nat,
    ) -> Ledger {
        let held = self.holdings(id);
        Ledger {
            reserve_a: (self.reserve_a - amount_a) as nat,
            reserve_b: (self.reserve_b - amount_b) as nat,
            total_shares: (self.total_shares - share) as nat,
            ..self
        }.with_holdings(
            id,
            Holdings {
                token_a: held.token_a + amount_a,
                token_b: held.token_b + amount_b,
                shares: (held.shares - share) as nat,
            },
        )
    }

    /// Why a swap of token A for token B is refused, if it is. The checks come
    /// in this order. A swap may not empty the reserve it draws on.
    pub open spec fn swap_a_for_b_refusal(self, id: Seq<char>, amount_a: nat, min_b: nat) -> Option<
        Error,
    > {
        let held = self.holdings(id);
        if amount_refusal(held.token_a, amount_a) is Some {
            amount_refusal(held.token_a, amount_a)
        } else {
            match self.swap_quote_a_for_b(amount_a) {
                Err(e) => Some(e),
                Ok(amount_b) => if amount_b < min_b {
                    Some(Error::SlippageExceeded)
                } else if amount_b >= self.reserve_b {
                    Some(Error::InsufficientLiquidity)
                } else if self.reserve_a + amount_a > u32::MAX || held.token_b + amount_b
                    > u32::MAX {
                    Some(Error::Overflow)
                } else {
                    None
                },
            }
        }
    }

    /// The ledger once `id` has paid `amount_a` for `amount_b`. The whole
    /// input goes to the reserve: the fee stays in the pool.
    pub open spec fn after_swap_a_for_b(self, id: Seq<char>, amount_a: nat, amount_b: nat) -> Ledger {
        let held = self.holdings(id);
        Ledger {
            reserve_a: self.reserve_a + amount_a,
            reserve_b: (self.reserve_b - amount_b) as nat,
            ..self
        }.with_holdings(
            id,
            Holdings {
                token_a: (held.token_a - amount_a) as nat,
                token_b: held.token_b + amount_b,
                shares: held.shares,
            },
        )
    }

    /// Why a swap of token B for token A is refused, if it is. The checks come
    /// in this order. A swap may not empty the reserve it draws on.
    pub open spec fn swap_b_for_a_refusal(self, id: Seq<char>, amount_b: nat, min_a: nat) -> Option<
        Error,
    > {
        let held = self.holdings(id);
        if amount_refusal(held.token_b, amount_b) is Some {
            amount_refusal(held.token_b, amount_b)
        } else {
            match self.swap_quote_b_for_a(amount_b) {
                Err(e) => Some(e),
                Ok(amount_a) => if amount_a < min_a {
                    Some(Error::SlippageExceeded)
                } else if amount_a >= self.reserve_a {
                    Some(Error::InsufficientLiquidity)
                } else if self.reserve_b + amount_b > u32::MAX || held.token_a + amount_a
                    > u32::MAX {
                    Some(Error::Overflow)
                } else {
                    None
                },
            }
        }
    }

    /// The ledger once `id` has paid `amount_b` for `amount_a`.
    pub open spec fn after_swap_b_for_a(self, id: Seq<char>, amount_b: nat, amount_a: nat) -> Ledger {
        let held = self.holdings(id);
        Ledger {
            reserve_a: (self.reserve_a - amount_a) as nat,
            reserve_b: self.reserve_b + amount_b,
            ..self
        }.with_holdings(
            id,
            Holdings {
                token_a: held.token_a + amount_a,
                token_b: (held.token_b - amount_b) as nat,
                shares: held.shares,
            },
        )
    }
}

/// A pool has liquidity exactly when it holds some of both tokens.
pub proof fn lemma_active_means_both_reserves(ledger: Ledger)
    ensures
        ledger.is_active() <==> ledger.reserve_a > 0 && ledger.reserve_b > 0,
{
    assert(ledger.reserve_a * ledger.reserve_b > 0 <==> ledger.reserve_a > 0 && ledger.reserve_b
        > 0) by (nonlinear_arith);
}

} // verus!
