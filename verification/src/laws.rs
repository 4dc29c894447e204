//! What follows from the model of the ledger, for every ledger and every
//! input.

use vstd::prelude::*;
use crate::error::Error;
use crate::holdings::Holdings;
use crate::ledger::{amount_refusal, lemma_active_means_both_reserves, Ledger};
use crate::pricing::{
    curve_point, lemma_curve_output_grows, lemma_curve_output_zero, lemma_curve_point_falls,
    lemma_net_of_fee_within, lemma_quotient_reaches, net_of_fee, scaled,
};
use crate::validity::{
    lemma_holdings_within_total, lemma_swap_a_for_b_keeps_valid, lemma_swap_b_for_a_keeps_valid,
    lemma_withdrawal_keeps_valid,
};

verus! {

/// On a fresh ledger every account holds nothing, and the pool is empty.
pub proof fn law_fresh_ledger_is_empty(fee_rate: nat, id: Seq<char>)
    ensures
        Ledger::fresh(fee_rate).holdings(id) == Holdings::nothing(),
        Ledger::fresh(fee_rate).reserve_a == 0,
        Ledger::fresh(fee_rate).reserve_b == 0,
        Ledger::fresh(fee_rate).total_shares == 0,
        !Ledger::fresh(fee_rate).is_active(),
{
}

/// Seeding adds the amounts to what the account holds, leaves its shares,
/// every other account and the pool as they were, and adds up over repeated
/// seeding. An account seeded on a fresh ledger holds just the amounts.
pub proof fn law_seeding_adds(
    ledger: Ledger,
    id: Seq<char>,
    amount_a: nat,
    amount_b: nat,
    more_a: nat,
    more_b: nat,
    other: Seq<char>,
    fee_rate: nat,
)
    requires
        other != id,
    ensures
        ledger.seeded(id, amount_a, amount_b).holdings(id) == (Holdings {
            token_a: ledger.holdings(id).token_a + amount_a,
            token_b: ledger.holdings(id).token_b + amount_b,
            shares: ledger.holdings(id).shares,
        }),
        ledger.seeded(id, amount_a, amount_b).holdings(other) == ledger.holdings(other),
        ledger.seeded(id, amount_a, amount_b).reserve_a == ledger.reserve_a,
        ledger.seeded(id, amount_a, amount_b).reserve_b == ledger.reserve_b,
        ledger.seeded(id, amount_a, amount_b).total_shares == ledger.total_shares,
        ledger.seeded(id, amount_a, amount_b).seeded(id, more_a, more_b) == ledger.seeded(
            id,
            amount_a + more_a,
            amount_b + more_b,
        ),
        Ledger::fresh(fee_rate).seeded(id, amount_a, amount_b).holdings(id) == (Holdings {
            token_a: amount_a,
            token_b: amount_b,
            shares: 0,
        }),
{
    assert(ledger.seeded(id, amount_a, amount_b).seeded(id, more_a, more_b).accounts
        =~= ledger.seeded(id, amount_a + more_a, amount_b + more_b).accounts);
}

/// The first deposit into a pool without shares is accepted whenever the
/// account can pay both amounts. It mints the bootstrap shares whatever the
/// amounts are, and the reserves are then the amounts.
pub proof fn law_first_deposit_bootstraps(
    ledger: Ledger,
    id: Seq<char>,
    amount_a: nat,
    amount_b: nat,
)
    requires
        ledger.valid(),
        ledger.total_shares == 0,
        amount_refusal(ledger.holdings(id).token_a, amount_a) is None,
        amount_refusal(ledger.holdings(id).token_b, amount_b) is None,
    ensures
        ledger.deposit_refusal(id, amount_a, amount_b) is None,
        ledger.shares_for_deposit(amount_a) == 100 * 1_000_000,
        ledger.after_deposit(id, amount_a, amount_b).reserve_a == amount_a,
        ledger.after_deposit(id, amount_a, amount_b).reserve_b == amount_b,
        ledger.after_deposit(id, amount_a, amount_b).total_shares == 100 * 1_000_000,
        ledger.after_deposit(id, amount_a, amount_b).holdings(id).shares == 100 * 1_000_000,
{
    lemma_holdings_within_total(ledger, id);
}

/// Right after a deposit, the shares it minted redeem for no more than was
/// deposited, and on each side for exactly the deposit where the shares
/// minted are an exact part of the shares outstanding, with nothing lost to
/// rounding: `reserve * minted == total_shares * amount`. The first deposit
/// into an empty pool is always such a one.
pub proof fn law_deposit_round_trip(ledger: Ledger, id: Seq<char>, amount_a: nat, amount_b: nat)
    requires
        ledger.valid(),
        ledger.deposit_refusal(id, amount_a, amount_b) is None,
    ensures
        ({
            let minted = ledger.shares_for_deposit(amount_a);
            let quote = ledger.after_deposit(id, amount_a, amount_b).withdrawal_quote(minted);
            &&& quote is Ok
            &&& quote->Ok_0.0 <= amount_a
            &&& quote->Ok_0.1 <= amount_b
            &&& quote->Ok_0.0 == amount_a <==> ledger.reserve_a * minted == ledger.total_shares
                * amount_a
            &&& quote->Ok_0.1 == amount_b <==> ledger.reserve_b * minted == ledger.total_shares
                * amount_b
            &&& ledger.total_shares == 0 ==> quote == Ok::<(nat, nat), Error>((amount_a, amount_b))
        }),
{
    let minted = ledger.shares_for_deposit(amount_a);
    let after = ledger.after_deposit(id, amount_a, amount_b);
    lemma_active_means_both_reserves(after);
    lemma_round_trip_side(ledger.reserve_a, ledger.total_shares, amount_a, minted);
    lemma_round_trip_side(ledger.reserve_b, ledger.total_shares, amount_b, minted);
}

/// One side of the round trip: with `minted` the shares that `amount` is
/// worth, or any positive number of them at the first deposit, the part of
/// the new reserve that they stand for is at most `amount`, and is `amount`
/// exactly when nothing was rounded away.
proof fn lemma_round_trip_side(reserve: nat, total_shares: nat, amount: nat, minted: nat)
    requires
        0 < minted,
        (total_shares == 0) == (reserve == 0),
        total_shares != 0 ==> minted == scaled(total_shares, amount, reserve),
    ensures
        scaled(reserve + amount, minted, total_shares + minted) <= amount,
        scaled(reserve + amount, minted, total_shares + minted) == amount <==> reserve * minted
            == total_shares * amount,
{
    let dividend = (reserve + amount) * minted;
    let divisor = total_shares + minted;
    lemma_quotient_reaches(dividend, divisor, amount);
    lemma_quotient_reaches(dividend, divisor, amount + 1);
    assert(dividend - amount * divisor == reserve * minted - total_shares * amount)
        by (nonlinear_arith)
        requires
            dividend == (reserve + amount) * minted,
            divisor == total_shares + minted,
    ;
    if total_shares != 0 {
        lemma_quotient_reaches(total_shares * amount, reserve, minted);
        assert(minted * reserve == reserve * minted) by (nonlinear_arith);
    } else {
        assert(reserve * minted == 0 && total_shares * amount == 0) by (nonlinear_arith)
            requires
                reserve == 0,
                total_shares == 0,
        ;
    }
    assert((amount + 1) * divisor > amount * divisor) by (nonlinear_arith)
        requires
            divisor > 0,
    ;
}

/// A deposit into a pool with shares whose two amounts are worth different
/// numbers of shares is refused as non-equivalent, provided the account can
/// pay both.
pub proof fn law_unbalanced_deposit_is_refused(
    ledger: Ledger,
    id: Seq<char>,
    amount_a: nat,
    amount_b: nat,
)
    requires
        ledger.total_shares != 0,
        amount_refusal(ledger.holdings(id).token_a, amount_a) is None,
        amount_refusal(ledger.holdings(id).token_b, amount_b) is None,
        scaled(ledger.total_shares, amount_a, ledger.reserve_a) != scaled(
            ledger.total_shares,
            amount_b,
            ledger.reserve_b,
        ),
    ensures
        ledger.deposit_refusal(id, amount_a, amount_b) == Some(Error::NonEquivalentValue),
{
}

/// A swap whose quote is below the caller's minimum is refused for slippage,
/// in either direction, provided the account can pay the input.
pub proof fn law_slippage_is_refused(ledger: Ledger, id: Seq<char>, amount: nat, min: nat)
    ensures
        amount_refusal(ledger.holdings(id).token_a, amount) is None
            && ledger.swap_quote_a_for_b(amount) is Ok && ledger.swap_quote_a_for_b(amount)->Ok_0
            < min ==> ledger.swap_a_for_b_refusal(id, amount, min) == Some(
            Error::SlippageExceeded,
        ),
        amount_refusal(ledger.holdings(id).token_b, amount) is None
            && ledger.swap_quote_b_for_a(amount) is Ok && ledger.swap_quote_b_for_a(amount)->Ok_0
            < min ==> ledger.swap_b_for_a_refusal(id, amount, min) == Some(
            Error::SlippageExceeded,
        ),
{
}

/// Without a fee, a positive amount of token A is quoted exactly what the
/// constant-product curve pays for it:
/// `reserve_b - reserve_a * reserve_b / (reserve_a + amount_a)`.
pub proof fn law_zero_fee_quote_is_the_curve(ledger: Ledger, amount_a: nat)
    requires
        ledger.valid(),
        ledger.is_active(),
        ledger.fee_rate == 0,
        amount_a > 0,
    ensures
        ledger.swap_quote_a_for_b(amount_a) == Ok::<nat, Error>(
            (ledger.reserve_b - ledger.reserve_a * ledger.reserve_b / (ledger.reserve_a
                + amount_a)) as nat,
        ),
{
    lemma_active_means_both_reserves(ledger);
    lemma_net_of_fee_within(amount_a, 0);
    lemma_curve_output_zero(ledger.reserve_a, ledger.reserve_b, amount_a);
}

/// A fee never raises what a swap of token A pays: whatever is quoted with a
/// fee is no more than what the same pool would quote without one, which is
/// then quoted too. Rounding can hide a small fee, so the two may be equal:
/// the fee lowers the quote exactly when the B reserve that the net input
/// leaves behind, times the A reserve after the whole input, is more than the
/// product of the reserves.
pub proof fn law_fee_never_raises_quote(ledger: Ledger, amount_a: nat)
    requires
        ledger.valid(),
        ledger.swap_quote_a_for_b(amount_a) is Ok,
    ensures
        ({
            let with_fee = ledger.swap_quote_a_for_b(amount_a);
            let without_fee = (Ledger { fee_rate: 0, ..ledger }).swap_quote_a_for_b(amount_a);
            let left_behind = curve_point(
                ledger.reserve_a,
                ledger.reserve_b,
                ledger.reserve_a + net_of_fee(amount_a, ledger.fee_rate),
            );
            &&& without_fee is Ok
            &&& with_fee->Ok_0 <= without_fee->Ok_0
            &&& with_fee->Ok_0 < without_fee->Ok_0 <==> left_behind * (ledger.reserve_a + amount_a)
                > ledger.reserve_a * ledger.reserve_b
        }),
{
    let net = net_of_fee(amount_a, ledger.fee_rate);
    let left_behind = curve_point(ledger.reserve_a, ledger.reserve_b, ledger.reserve_a + net);
    lemma_active_means_both_reserves(ledger);
    lemma_net_of_fee_within(amount_a, ledger.fee_rate);
    lemma_net_of_fee_within(amount_a, 0);
    lemma_curve_output_zero(ledger.reserve_a, ledger.reserve_b, net);
    lemma_curve_output_zero(ledger.reserve_a, ledger.reserve_b, amount_a);
    lemma_curve_output_grows(ledger.reserve_a, ledger.reserve_b, net, amount_a);
    lemma_curve_point_falls(ledger.reserve_a, ledger.reserve_b, ledger.reserve_a + net);
    lemma_curve_point_falls(ledger.reserve_a, ledger.reserve_b, ledger.reserve_a + amount_a);
    lemma_quotient_reaches(
        ledger.reserve_a * ledger.reserve_b,
        ledger.reserve_a + amount_a,
        left_behind,
    );
}

/// A swap of token A is quoted exactly when the pool has liquidity and the
/// fee leaves something of the input; what is quoted is then positive and
/// no more than the B reserve.
pub proof fn law_quote_needs_net_input(ledger: Ledger, amount_a: nat)
    requires
        ledger.valid(),
    ensures
        ledger.swap_quote_a_for_b(amount_a) is Ok <==> ledger.is_active() && net_of_fee(
            amount_a,
            ledger.fee_rate,
        ) > 0,
        ledger.swap_quote_a_for_b(amount_a) is Ok ==> 0 < ledger.swap_quote_a_for_b(
            amount_a,
        )->Ok_0 <= ledger.reserve_b,
{
    lemma_active_means_both_reserves(ledger);
    if ledger.is_active() {
        lemma_curve_output_zero(
            ledger.reserve_a,
            ledger.reserve_b,
            net_of_fee(amount_a, ledger.fee_rate),
        );
    }
}

/// An account that holds the shares can always redeem them, unless the
/// tokens would not fit in its balance: a valid ledger never refuses a
/// withdrawal for want of liquidity or for shares that do not exist.
pub proof fn law_withdrawal_needs_only_the_shares(ledger: Ledger, id: Seq<char>, share: nat)
    requires
        ledger.valid(),
    ensures
        ledger.withdrawal_refusal(id, share) != Some(Error::ZeroLiquidity),
        ledger.withdrawal_refusal(id, share) != Some(Error::InvalidShare),
        0 < share <= ledger.holdings(id).shares ==> ledger.withdrawal_quote(share) is Ok,
{
    lemma_holdings_within_total(ledger, id);
    lemma_active_means_both_reserves(ledger);
}

/// An operation touches no account but the one it is called for, and
/// removes none.
pub proof fn law_other_accounts_are_untouched(
    ledger: Ledger,
    id: Seq<char>,
    other: Seq<char>,
    amount_a: nat,
    amount_b: nat,
    share: nat,
)
    requires
        other != id,
    ensures
        ({
            let seeded = ledger.seeded(id, amount_a, amount_b);
            let deposited = ledger.after_deposit(id, amount_a, amount_b);
            let withdrawn = ledger.after_withdrawal(id, share, amount_a, amount_b);
            let swapped = ledger.after_swap_a_for_b(id, amount_a, amount_b);
            let swapped_back = ledger.after_swap_b_for_a(id, amount_b, amount_a);
            &&& seeded.holdings(other) == ledger.holdings(other)
            &&& deposited.holdings(other) == ledger.holdings(other)
            &&& withdrawn.holdings(other) == ledger.holdings(other)
            &&& swapped.holdings(other) == ledger.holdings(other)
            &&& swapped_back.holdings(other) == ledger.holdings(other)
            &&& ledger.accounts.dom().subset_of(seeded.accounts.dom())
            &&& ledger.accounts.dom().subset_of(deposited.accounts.dom())
            &&& ledger.accounts.dom().subset_of(withdrawn.accounts.dom())
            &&& ledger.accounts.dom().subset_of(swapped.accounts.dom())
            &&& ledger.accounts.dom().subset_of(swapped_back.accounts.dom())
        }),
{
}

/// Deposits, withdrawals and swaps make no tokens and lose none: what the
/// account and the pool hold between them of each token stays the same.
/// Shares are minted and burned for the account and the pool alike.
pub proof fn law_tokens_only_move(
    ledger: Ledger,
    id: Seq<char>,
    amount_a: nat,
    amount_b: nat,
    share: nat,
    min: nat,
)
    requires
        ledger.valid(),
    ensures
        ledger.deposit_refusal(id, amount_a, amount_b) is None ==> same_tokens_and_share_gap(
            ledger,
            ledger.after_deposit(id, amount_a, amount_b),
            id,
        ),
        ledger.withdrawal_refusal(id, share) is None ==> same_tokens_and_share_gap(
            ledger,
            ledger.after_withdrawal(
                id,
                share,
                ledger.withdrawal_quote(share)->Ok_0.0,
                ledger.withdrawal_quote(share)->Ok_0.1,
            ),
            id,
        ),
        ledger.swap_a_for_b_refusal(id, amount_a, min) is None ==> same_tokens_and_share_gap(
            ledger,
            ledger.after_swap_a_for_b(id, amount_a, ledger.swap_quote_a_for_b(amount_a)->Ok_0),
            id,
        ),
        ledger.swap_b_for_a_refusal(id, amount_b, min) is None ==> same_tokens_and_share_gap(
            ledger,
            ledger.after_swap_b_for_a(id, amount_b, ledger.swap_quote_b_for_a(amount_b)->Ok_0),
            id,
        ),
{
    lemma_holdings_within_total(ledger, id);
    if ledger.withdrawal_refusal(id, share) is None {
        lemma_withdrawal_keeps_valid(ledger, id, share);
    }
}

/// Between them, the account and the pool hold as much of each token after
/// as before, and the shares outstanding exceed the account's by as much.
pub open spec fn same_tokens_and_share_gap(before: Ledger, after: Ledger, id: Seq<char>) -> bool {
    &&& after.holdings(id).token_a + after.reserve_a == before.holdings(id).token_a
        + before.reserve_a
    &&& after.holdings(id).token_b + after.reserve_b == before.holdings(id).token_b
        + before.reserve_b
    &&& after.total_shares - after.holdings(id).shares == before.total_shares - before.holdings(
        id,
    ).shares
}

/// A pool without liquidity takes deposits only: every swap and every
/// withdrawal is refused.
pub proof fn law_only_deposits_bring_liquidity(
    ledger: Ledger,
    id: Seq<char>,
    amount: nat,
    min: nat,
)
    requires
        ledger.valid(),
        !ledger.is_active(),
    ensures
        ledger.swap_a_for_b_refusal(id, amount, min) is Some,
        ledger.swap_b_for_a_refusal(id, amount, min) is Some,
        ledger.withdrawal_refusal(id, amount) is Some,
{
    lemma_holdings_within_total(ledger, id);
    lemma_active_means_both_reserves(ledger);
}

/// A swap leaves the pool with liquidity, and a withdrawal does unless it
/// redeems every share outstanding, which empties the pool.
pub proof fn law_liquidity_stays(
    ledger: Ledger,
    id: Seq<char>,
    amount: nat,
    min: nat,
    share: nat,
)
    requires
        ledger.valid(),
    ensures
        ledger.swap_a_for_b_refusal(id, amount, min) is None ==> ledger.after_swap_a_for_b(
            id,
            amount,
            ledger.swap_quote_a_for_b(amount)->Ok_0,
        ).is_active(),
        ledger.swap_b_for_a_refusal(id, amount, min) is None ==> ledger.after_swap_b_for_a(
            id,
            amount,
            ledger.swap_quote_b_for_a(amount)->Ok_0,
        ).is_active(),
        ledger.withdrawal_refusal(id, share) is None ==> {
            let after = ledger.after_withdrawal(
                id,
                share,
                ledger.withdrawal_quote(share)->Ok_0.0,
                ledger.withdrawal_quote(share)->Ok_0.1,
            );
            &&& after.is_active() <==> share < ledger.total_shares
            &&& share == ledger.total_shares ==> after.reserve_a == 0 && after.reserve_b == 0
        },
{
    lemma_active_means_both_reserves(ledger);
    if ledger.swap_a_for_b_refusal(id, amount, min) is None {
        lemma_swap_a_for_b_keeps_valid(ledger, id, amount, min);
        lemma_active_means_both_reserves(
            ledger.after_swap_a_for_b(id, amount, ledger.swap_quote_a_for_b(amount)->Ok_0),
        );
    }
    if ledger.swap_b_for_a_refusal(id, amount, min) is None {
        lemma_swap_b_for_a_keeps_valid(ledger, id, amount, min);
        lemma_active_means_both_reserves(
            ledger.after_swap_b_for_a(id, amount, ledger.swap_quote_b_for_a(amount)->Ok_0),
        );
    }
    if ledger.withdrawal_refusal(id, share) is None {
        lemma_withdrawal_keeps_valid(ledger, id, share);
        lemma_active_means_both_reserves(
            ledger.after_withdrawal(
                id,
                share,
                ledger.withdrawal_quote(share)->Ok_0.0,
                ledger.withdrawal_quote(share)->Ok_0.1,
            ),
        );
    }
}

} // verus!
