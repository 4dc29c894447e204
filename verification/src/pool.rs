//! The executable ledger.

use vstd::prelude::*;
use vstd::hash_map::StringHashMap;
use crate::error::Error;
use crate::holdings::Holdings;
use crate::ledger::{amount_refusal, lemma_active_means_both_reserves, representable, Ledger};
use crate::pricing::{
    lemma_curve_point_falls, lemma_curve_point_rises, lemma_net_of_fee_within, lemma_scaled_within,
    mul_div, BOOTSTRAP_SHARES, FEE_DENOMINATOR,
};
use crate::validity::{
    lemma_deposit_keeps_valid, lemma_fresh_is_valid, lemma_holdings_within_total,
    lemma_seeded_is_valid, lemma_swap_a_for_b_keeps_valid, lemma_swap_b_for_a_keeps_valid,
    lemma_withdrawal_keeps_valid,
};

verus! {

/// What the ledger keeps for one account.
#[derive(Clone, Copy)]
struct Account {
    token_a: u32,
    token_b: u32,
    shares: u32,
}

impl View for Account {
    type V = Holdings;

    closed spec fn view(&self) -> Holdings {
        Holdings {
            token_a: self.token_a as nat,
            token_b: self.token_b as nat,
            shares: self.shares as nat,
        }
    }
}

/// What a call returned, with the amount as a number.
pub open spec fn amount_in(r: Result<u32, Error>) -> Result<nat, Error> {
    match r {
        Ok(amount) => Ok(amount as nat),
        Err(e) => Err(e),
    }
}

/// What a call returned, with the two amounts as numbers.
pub open spec fn amounts_in(r: Result<(u32, u32), Error>) -> Result<(nat, nat), Error> {
    match r {
        Ok((amount_a, amount_b)) => Ok((amount_a as nat, amount_b as nat)),
        Err(e) => Err(e),
    }
}

/// The pool and the accounts that trade with it.
pub struct Amm {
    fees: u32,
    total_pool_shares: u32,
    token_a_pool_balance: u32,
    token_b_pool_balance: u32,
    accounts: StringHashMap<Account>,
}

impl View for Amm {
    type V = Ledger;

    closed spec fn view(&self) -> Ledger {
        Ledger {
            reserve_a: self.token_a_pool_balance as nat,
            reserve_b: self.token_b_pool_balance as nat,
            total_shares: self.total_pool_shares as nat,
            fee_rate: self.fees as nat,
            accounts: self.accounts@.map_values(|account: Account| account@),
        }
    }
}

impl Amm {
    /// The ledger is one that the operations can reach.
    pub open spec fn wf(&self) -> bool {
        self@.valid()
    }

    /// A ledger with no reserves, no shares and no accounts. A fee rate of a
    /// thousand or more stands for no fee.
    pub fn new(fees: u32) -> (amm: Self)
        ensures
            amm.wf(),
            amm@ == Ledger::fresh(
                if fees >= FEE_DENOMINATOR {
                    0
                } else {
                    fees as nat
                },
            ),
    {
        let amm = Self {
            fees: if fees >= FEE_DENOMINATOR {
                0
            } else {
                fees
            },
            total_pool_shares: 0,
            token_a_pool_balance: 0,
            token_b_pool_balance: 0,
            accounts: StringHashMap::new(),
        };
        proof {
            assert(amm@.accounts =~= Map::empty());
            lemma_fresh_is_valid(amm.fees as nat);
        }
        amm
    }

    /// What the account holds; nothing, if the ledger has never heard of it.
    fn account(&self, account_id: &str) -> (account: Account)
        ensures
            account@ == self@.holdings(account_id@),
    {
        match self.accounts.get(account_id) {
            Some(account) => *account,
            None => Account { token_a: 0, token_b: 0, shares: 0 },
        }
    }

    /// Replaces what the account holds.
    fn set_account(&mut self, account_id: String, account: Account)
        ensures
            final(self)@ == old(self)@.with_holdings(account_id@, account@),
    {
        self.accounts.insert(account_id, account);
        assert(self@.accounts =~= old(self)@.accounts.insert(account_id@, account@));
    }

    /// Whether `amount` can be taken from `available`.
    fn is_valid_amount(available: u32, amount: u32) -> (r: Result<(), Error>)
        ensures
            match r {
                Ok(()) => amount_refusal(available as nat, amount as nat) is None,
                Err(e) => amount_refusal(available as nat, amount as nat) == Some(e),
            },
    {
        if amount == 0 {
            Err(Error::ZeroAmount)
        } else if amount > available {
            Err(Error::InsufficientAmount)
        } else {
            Ok(())
        }
    }

    /// The product of the two reserves.
    fn get_pool_balance(&self) -> (product: u64)
        ensures
            product == self@.reserve_a * self@.reserve_b,
    {
        assert(self.token_a_pool_balance * self.token_b_pool_balance <= u64::MAX)
            by (nonlinear_arith)
            requires
                self.token_a_pool_balance <= u32::MAX,
                self.token_b_pool_balance <= u32::MAX,
        ;
        (self.token_a_pool_balance as u64) * (self.token_b_pool_balance as u64)
    }

    /// Whether the pool has liquidity to price against.
    fn is_pool_active(&self) -> (r: Result<(), Error>)
        ensures
            match r {
                Ok(()) => self@.is_active(),
                Err(e) => !self@.is_active() && e == Error::ZeroLiquidity,
            },
    {
        if self.get_pool_balance() == 0 {
            Err(Error::ZeroLiquidity)
        } else {
            Ok(())
        }
    }

    /// The amount in 32 bits, where they hold it.
    fn narrow(amount: u128) -> (r: Result<u32, Error>)
        ensures
            amount_in(r) == representable(amount as nat),
    {
        if amount > u32::MAX as u128 {
            Err(Error::Overflow)
        } else {
            Ok(amount as u32)
        }
    }

    /// Credits the account with free tokens, out of nowhere: a way to fund
    /// accounts before they trade. The pool is not touched.
    ///
    /// The balances must have room for the amounts.
    pub fn get_free_tokens(&mut self, account_id: String, token_a_amount: u32, token_b_amount: u32)
        requires
            old(self).wf(),
            old(self)@.holdings(account_id@).token_a + token_a_amount <= u32::MAX,
            old(self)@.holdings(account_id@).token_b + token_b_amount <= u32::MAX,
        ensures
            final(self).wf(),
            final(self)@ == old(self)@.seeded(
                account_id@,
                token_a_amount as nat,
                token_b_amount as nat,
            ),
    {
        let held = self.account(account_id.as_str());
        proof {
            lemma_seeded_is_valid(
                self@,
                account_id@,
                token_a_amount as nat,
                token_b_amount as nat,
            );
        }
        self.set_account(
            account_id,
            Account {
                token_a: held.token_a + token_a_amount,
                token_b: held.token_b + token_b_amount,
                shares: held.shares,
            },
        );
    }

    /// The account's free token A, free token B and shares; zeros for an
    /// account that the ledger has never heard of.
    pub fn get_account_balance(&self, account_id: String) -> (balance: (u32, u32, u32))
        ensures
            balance.0 == self@.holdings(account_id@).token_a,
            balance.1 == self@.holdings(account_id@).token_b,
            balance.2 == self@.holdings(account_id@).shares,
    {
        let held = self.account(account_id.as_str());
        (held.token_a, held.token_b, held.shares)
    }

    /// The pool's reserve of token A, its reserve of token B, the shares
    /// outstanding and the fee rate.
    pub fn get_pool_info(&self) -> (info: (u32, u32, u32, u32))
        ensures
            info.0 == self@.reserve_a,
            info.1 == self@.reserve_b,
            info.2 == self@.total_shares,
            info.3 == self@.fee_rate,
    {
        (self.token_a_pool_balance, self.token_b_pool_balance, self.total_pool_shares, self.fees)
    }

    /// What `token_b_amount` of token B is worth in token A at the ratio of
    /// the reserves: `reserve_a * token_b_amount / reserve_b`, rounded down.
    /// No fee is counted.
    ///
    /// Fails with `ZeroLiquidity` on a pool without reserves, and with
    /// `Overflow` where the value does not fit.
    pub fn get_token_a_swap_amount_out(&self, token_b_amount: u32) -> (r: Result<u32, Error>)
        ensures
            amount_in(r) == self@.spot_value_in_a(token_b_amount as nat),
    {
        self.is_pool_active()?;
        proof {
            lemma_active_means_both_reserves(self@);
        }
        let amount = mul_div(self.token_a_pool_balance, token_b_amount, self.token_b_pool_balance);
        Self::narrow(amount as u128)
    }

    /// What `token_a_amount` of token A is worth in token B at the ratio of
    /// the reserves: `reserve_b * token_a_amount / reserve_a`, rounded down.
    /// No fee is counted.
    ///
    /// Fails with `ZeroLiquidity` on a pool without reserves, and with
    /// `Overflow` where the value does not fit.
    pub fn get_token_b_swap_amount_out(&self, token_a_amount: u32) -> (r: Result<u32, Error>)
        ensures
            amount_in(r) == self@.spot_value_in_b(token_a_amount as nat),
    {
        self.is_pool_active()?;
        proof {
            lemma_active_means_both_reserves(self@);
        }
        let amount = mul_div(self.token_b_pool_balance, token_a_amount, self.token_a_pool_balance);
        Self::narrow(amount as u128)
    }

    /// The tokens that `share` shares can be redeemed for: that part of each
    /// reserve, rounded down.
    ///
    /// Fails with `ZeroLiquidity` on a pool without reserves, and with
    /// `InvalidShare` for more shares than are outstanding.
    pub fn get_withdraw_amount(&self, share: u32) -> (r: Result<(u32, u32), Error>)
        requires
            self.wf(),
        ensures
            amounts_in(r) == self@.withdrawal_quote(share as nat),
    {
        self.is_pool_active()?;
        if share > self.total_pool_shares {
            return Err(Error::InvalidShare);
        }
        proof {
            lemma_active_means_both_reserves(self@);
            lemma_scaled_within(self@.reserve_a, share as nat, self@.total_shares);
            lemma_scaled_within(self@.reserve_b, share as nat, self@.total_shares);
        }
        let token_a_amount = mul_div(self.token_a_pool_balance, share, self.total_pool_shares);
        let token_b_amount = mul_div(self.token_b_pool_balance, share, self.total_pool_shares);
        Ok((token_a_amount as u32, token_b_amount as u32))
    }

    /// The token B that a swap pays for `token_a_amount` of token A. The fee
    /// is taken from the input, and the rest moves the pool along its curve:
    /// the B reserve falls to `reserve_a * reserve_b / (reserve_a + input)`,
    /// rounded down, and what it gives up is paid.
    ///
    /// Fails with `ZeroLiquidity` on a pool without reserves, and with
    /// `Overflow` where the fee leaves nothing of the input.
    pub fn get_swap_amount_for_token_b(&self, token_a_amount: u32) -> (r: Result<u32, Error>)
        requires
            self.wf(),
        ensures
            amount_in(r) == self@.swap_quote_a_for_b(token_a_amount as nat),
    {
        self.is_pool_active()?;
        proof {
            lemma_active_means_both_reserves(self@);
            lemma_net_of_fee_within(token_a_amount as nat, self@.fee_rate);
        }
        let token_a_amount = mul_div(token_a_amount, FEE_DENOMINATOR - self.fees, FEE_DENOMINATOR);
        let total_token_a = self.token_a_pool_balance as u64 + token_a_amount;
        let total_token_b = self.get_pool_balance() / total_token_a;
        proof {
            lemma_curve_point_falls(self@.reserve_a, self@.reserve_b, total_token_a as nat);
        }
        if total_token_b == self.token_b_pool_balance as u64 {
            // One unit comes off an output that moved nothing, and there is
            // none to take it from.
            return Err(Error::Overflow);
        }
        Ok((self.token_b_pool_balance as u64 - total_token_b) as u32)
    }

    /// The token A that goes with `token_b_amount` of token B: what the curve
    /// asks on the A side for that much to leave the B reserve,
    /// `reserve_a * reserve_b / (reserve_b - token_b_amount) - reserve_a`
    /// rounded down, with the fee added on.
    ///
    /// Fails with `ZeroLiquidity` on a pool without reserves, with
    /// `InsufficientLiquidity` for the whole B reserve or more, and with
    /// `Overflow` where the amount does not fit.
    pub fn get_swap_amount_for_token_a(&self, token_b_amount: u32) -> (r: Result<u32, Error>)
        requires
            self.wf(),
        ensures
            amount_in(r) == self@.swap_quote_b_for_a(token_b_amount as nat),
    {
        self.is_pool_active()?;
        if token_b_amount >= self.token_b_pool_balance {
            return Err(Error::InsufficientLiquidity);
        }
        let total_token_b = (self.token_b_pool_balance - token_b_amount) as u64;
        let total_token_a = self.get_pool_balance() / total_token_b;
        proof {
            assert(self@.reserve_a * self@.reserve_b == self@.reserve_b * self@.reserve_a)
                by (nonlinear_arith);
            lemma_curve_point_rises(self@.reserve_b, self@.reserve_a, total_token_b as nat);
        }
        let owed = total_token_a - self.token_a_pool_balance as u64;
        let token_a_amount = owed as u128 * (FEE_DENOMINATOR as u128) / ((FEE_DENOMINATOR
            - self.fees) as u128);
        Self::narrow(token_a_amount)
    }
    /// Moves tokens from the account into the pool and mints shares for them.
    ///
    /// Both amounts must be positive and within what the account holds. The
    /// first deposit into an empty pool mints a fixed number of shares. Any
    /// later one must be worth the same part of the outstanding shares on
    /// both sides, rounded down, and mints that many; it is refused where
    /// that is none. Nothing changes where the deposit is refused.
    pub fn deposit(&mut self, account_id: String, token_a_amount: u32, token_b_amount: u32) -> (r:
        Result<u32, Error>)
        requires
            old(self).wf(),
        ensures
            final(self).wf(),
            match r {
                Ok(shares) => {
                    &&& old(self)@.deposit_refusal(
                        account_id@,
                        token_a_amount as nat,
                        token_b_amount as nat,
                    ) is None
                    &&& shares == old(self)@.shares_for_deposit(token_a_amount as nat)
                    &&& final(self)@ == old(self)@.after_deposit(
                        account_id@,
                        token_a_amount as nat,
                        token_b_amount as nat,
                    )
                },
                Err(e) => {
                    &&& old(self)@.deposit_refusal(
                        account_id@,
                        token_a_amount as nat,
                        token_b_amount as nat,
                    ) == Some(e)
                    &&& final(self)@ == old(self)@
                },
            },
    {
        let held = self.account(account_id.as_str());
        Self::is_valid_amount(held.token_a, token_a_amount)?;
        Self::is_valid_amount(held.token_b, token_b_amount)?;

        let shares: u64 = if self.total_pool_shares == 0 {
            BOOTSTRAP_SHARES as u64
        } else {
            let token_a_share = mul_div(
                self.total_pool_shares,
                token_a_amount,
                self.token_a_pool_balance,
            );
            let token_b_share = mul_div(
                self.total_pool_shares,
                token_b_amount,
                self.token_b_pool_balance,
            );
            if token_a_share != token_b_share {
                return Err(Error::NonEquivalentValue);
            }
            token_a_share
        };
        if shares == 0 {
            return Err(Error::ThresholdNotReached);
        }
        if shares > (u32::MAX - self.total_pool_shares) as u64 || token_a_amount > u32::MAX
            - self.token_a_pool_balance || token_b_amount > u32::MAX - self.token_b_pool_balance {
            return Err(Error::Overflow);
        }
        let shares = shares as u32;
        proof {
            lemma_holdings_within_total(self@, account_id@);
            lemma_deposit_keeps_valid(
                self@,
                account_id@,
                token_a_amount as nat,
                token_b_amount as nat,
            );
        }

        self.token_a_pool_balance += token_a_amount;
        self.token_b_pool_balance += token_b_amount;
        self.total_pool_shares += shares;
        self.set_account(
            account_id,
            Account {
                token_a: held.token_a - token_a_amount,
                token_b: held.token_b - token_b_amount,
                shares: held.shares + shares,
            },
        );
        Ok(shares)
    }

    /// Burns `share` of the account's shares and pays it that part of each
    /// reserve, rounded down. Nothing changes where the withdrawal is
    /// refused.
    pub fn withdraw(&mut self, account_id: String, share: u32) -> (r: Result<(u32, u32), Error>)
        requires
            old(self).wf(),
        ensures
            final(self).wf(),
            match r {
                Ok((amount_a, amount_b)) => {
                    &&& old(self)@.withdrawal_refusal(account_id@, share as nat) is None
                    &&& old(self)@.withdrawal_quote(share as nat) == amounts_in(r)
                    &&& final(self)@ == old(self)@.after_withdrawal(
                        account_id@,
                        share as nat,
                        amount_a as nat,
                        amount_b as nat,
                    )
                },
                Err(e) => {
                    &&& old(self)@.withdrawal_refusal(account_id@, share as nat) == Some(e)
                    &&& final(self)@ == old(self)@
                },
            },
    {
        let held = self.account(account_id.as_str());
        Self::is_valid_amount(held.shares, share)?;
        let (token_a_amount, token_b_amount) = self.get_withdraw_amount(share)?;
        if token_a_amount > u32::MAX - held.token_a || token_b_amount > u32::MAX - held.token_b {
            return Err(Error::Overflow);
        }
        proof {
            lemma_holdings_within_total(self@, account_id@);
            lemma_withdrawal_keeps_valid(self@, account_id@, share as nat);
        }

        self.total_pool_shares -= share;
        self.token_a_pool_balance -= token_a_amount;
        self.token_b_pool_balance -= token_b_amount;
        self.set_account(
            account_id,
            Account {
                token_a: held.token_a + token_a_amount,
                token_b: held.token_b + token_b_amount,
                shares: held.shares - share,
            },
        );
        Ok((token_a_amount, token_b_amount))
    }

    /// Pays `token_a_amount` of the account's token A into the pool and
    /// credits it with the token B that [`Self::get_swap_amount_for_token_b`]
    /// quotes, unless that is less than `min_token_b` or all that the pool
    /// has. Nothing changes where the swap is refused.
    pub fn swap_token_a_for_token_b(
        &mut self,
        account_id: String,
        token_a_amount: u32,
        min_token_b: u32,
    ) -> (r: Result<u32, Error>)
        requires
            old(self).wf(),
        ensures
            final(self).wf(),
            match r {
                Ok(token_b_amount) => {
                    &&& old(self)@.swap_a_for_b_refusal(
                        account_id@,
                        token_a_amount as nat,
                        min_token_b as nat,
                    ) is None
                    &&& old(self)@.swap_quote_a_for_b(token_a_amount as nat) == amount_in(r)
                    &&& final(self)@ == old(self)@.after_swap_a_for_b(
                        account_id@,
                        token_a_amount as nat,
                        token_b_amount as nat,
                    )
                },
                Err(e) => {
                    &&& old(self)@.swap_a_for_b_refusal(
                        account_id@,
                        token_a_amount as nat,
                        min_token_b as nat,
                    ) == Some(e)
                    &&& final(self)@ == old(self)@
                },
            },
    {
        let held = self.account(account_id.as_str());
        Self::is_valid_amount(held.token_a, token_a_amount)?;
        let token_b_amount = self.get_swap_amount_for_token_b(token_a_amount)?;
        if token_b_amount < min_token_b {
            return Err(Error::SlippageExceeded);
        }
        if token_b_amount >= self.token_b_pool_balance {
            return Err(Error::InsufficientLiquidity);
        }
        if token_a_amount > u32::MAX - self.token_a_pool_balance || token_b_amount > u32::MAX
            - held.token_b {
            return Err(Error::Overflow);
        }
        proof {
            lemma_swap_a_for_b_keeps_valid(
                self@,
                account_id@,
                token_a_amount as nat,
                min_token_b as nat,
            );
        }

        self.token_a_pool_balance += token_a_amount;
        self.token_b_pool_balance -= token_b_amount;
        self.set_account(
            account_id,
            Account {
                token_a: held.token_a - token_a_amount,
                token_b: held.token_b + token_b_amount,
                shares: held.shares,
            },
        );
        Ok(token_b_amount)
    }

    /// Pays `token_b_amount` of the account's token B into the pool and
    /// credits it with the token A that [`Self::get_swap_amount_for_token_a`]
    /// quotes, unless that is less than `min_token_a` or all that the pool
    /// has. Nothing changes where the swap is refused.
    pub fn swap_token_b_for_token_a(
        &mut self,
        account_id: String,
        token_b_amount: u32,
        min_token_a: u32,
    ) -> (r: Result<u32, Error>)
        requires
            old(self).wf(),
        ensures
            final(self).wf(),
            match r {
                Ok(token_a_amount) => {
                    &&& old(self)@.swap_b_for_a_refusal(
                        account_id@,
                        token_b_amount as nat,
                        min_token_a as nat,
                    ) is None
                    &&& old(self)@.swap_quote_b_for_a(token_b_amount as nat) == amount_in(r)
                    &&& final(self)@ == old(self)@.after_swap_b_for_a(
                        account_id@,
                        token_b_amount as nat,
                        token_a_amount as nat,
                    )
                },
                Err(e) => {
                    &&& old(self)@.swap_b_for_a_refusal(
                        account_id@,
                        token_b_amount as nat,
                        min_token_a as nat,
                    ) == Some(e)
                    &&& final(self)@ == old(self)@
                },
            },
    {
        let held = self.account(account_id.as_str());
        Self::is_valid_amount(held.token_b, token_b_amount)?;
        let token_a_amount = self.get_swap_amount_for_token_a(token_b_amount)?;
        if token_a_amount < min_token_a {
            return Err(Error::SlippageExceeded);
        }
        if token_a_amount >= self.token_a_pool_balance {
            return Err(Error::InsufficientLiquidity);
        }
        if token_b_amount > u32::MAX - self.token_b_pool_balance || token_a_amount > u32::MAX
            - held.token_a {
            return Err(Error::Overflow);
        }
        proof {
            lemma_swap_b_for_a_keeps_valid(
                self@,
                account_id@,
                token_b_amount as nat,
                min_token_a as nat,
            );
        }

        self.token_a_pool_balance -= token_a_amount;
        self.token_b_pool_balance += token_b_amount;
        self.set_account(
            account_id,
            Account {
                token_a: held.token_a + token_a_amount,
                token_b: held.token_b - token_b_amount,
                shares: held.shares,
            },
        );
        Ok(token_a_amount)
    }
}

} // verus!
