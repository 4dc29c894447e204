//! Every operation keeps the ledger valid.

use vstd::prelude::*;
use crate::holdings::{lemma_shares_held_insert, lemma_shares_held_split, Holdings};
use crate::ledger::Ledger;
use crate::pricing::{
    lemma_scaled_proper, lemma_scaled_whole, lemma_scaled_within, FEE_DENOMINATOR,
};

verus! {

/// A fresh ledger is valid.
pub proof fn lemma_fresh_is_valid(fee_rate: nat)
    requires
        fee_rate < FEE_DENOMINATOR,
    ensures
        Ledger::fresh(fee_rate).valid(),
{
}

/// No account holds more shares than are outstanding, and what an account
/// holds fits in 32 bits, whether it was ever credited or not.
pub proof fn lemma_holdings_within_total(ledger: Ledger, id: Seq<char>)
    requires
        ledger.valid(),
    ensures
        ledger.holdings(id).bounded(),
        ledger.holdings(id).shares <= ledger.total_shares,
{
    if ledger.accounts.contains_key(id) {
        lemma_shares_held_split(ledger.accounts, id);
    }
}

/// Replacing what an account holds keeps the ledger valid where the reserves
/// stay as they are and the shares of the account too.
proof fn lemma_same_shares_keep_valid(before: Ledger, id: Seq<char>, held: Holdings, after: Ledger)
    requires
        before.valid(),
        held.bounded(),
        held.shares == before.holdings(id).shares,
        after.accounts == before.accounts.insert(id, held),
        after.fee_rate == before.fee_rate,
        after.total_shares == before.total_shares,
        after.reserve_a <= u32::MAX,
        after.reserve_b <= u32::MAX,
        (after.reserve_a == 0) == (before.reserve_a == 0),
        (after.reserve_b == 0) == (before.reserve_b == 0),
    ensures
        after.valid(),
{
    lemma_shares_held_insert(before.accounts, id, held);
}

/// Crediting free tokens keeps the ledger valid.
pub proof fn lemma_seeded_is_valid(ledger: Ledger, id: Seq<char>, amount_a: nat, amount_b: nat)
    requires
        ledger.valid(),
        ledger.holdings(id).token_a + amount_a <= u32::MAX,
        ledger.holdings(id).token_b + amount_b <= u32::MAX,
    ensures
        ledger.seeded(id, amount_a, amount_b).valid(),
{
    lemma_holdings_within_total(ledger, id);
    let after = ledger.seeded(id, amount_a, amount_b);
    lemma_same_shares_keep_valid(ledger, id, after.accounts[id], after);
}

/// A deposit that is not refused keeps the ledger valid.
pub proof fn lemma_deposit_keeps_valid(ledger: Ledger, id: Seq<char>, amount_a: nat, amount_b: nat)
    requires
        ledger.valid(),
        ledger.deposit_refusal(id, amount_a, amount_b) is None,
    ensures
        ledger.after_deposit(id, amount_a, amount_b).valid(),
{
    lemma_holdings_within_total(ledger, id);
    let after = ledger.after_deposit(id, amount_a, amount_b);
    lemma_shares_held_insert(ledger.accounts, id, after.accounts[id]);
}

/// A withdrawal that is not refused keeps the ledger valid: the shares burned
/// leave the account and the total alike, and the reserves are emptied
/// exactly when the last share goes.
pub proof fn lemma_withdrawal_keeps_valid(ledger: Ledger, id: Seq<char>, share: nat)
    requires
        ledger.valid(),
        ledger.withdrawal_refusal(id, share) is None,
    ensures
        ledger.withdrawal_quote(share) is Ok,
        ({
            let (amount_a, amount_b) = ledger.withdrawal_quote(share)->Ok_0;
            &&& amount_a <= ledger.reserve_a
            &&& amount_b <= ledger.reserve_b
            &&& ledger.after_withdrawal(id, share, amount_a, amount_b).valid()
        }),
{
    lemma_holdings_within_total(ledger, id);
    let (amount_a, amount_b) = ledger.withdrawal_quote(share)->Ok_0;
    let after = ledger.after_withdrawal(id, share, amount_a, amount_b);
    lemma_scaled_within(ledger.reserve_a, share, ledger.total_shares);
    lemma_scaled_within(ledger.reserve_b, share, ledger.total_shares);
    if share == ledger.total_shares {
        lemma_scaled_whole(ledger.reserve_a, share);
        lemma_scaled_whole(ledger.reserve_b, share);
    } else {
        assert(ledger.reserve_a > 0 && ledger.reserve_b > 0);
        lemma_scaled_proper(ledger.reserve_a, share, ledger.total_shares);
        lemma_scaled_proper(ledger.reserve_b, share, ledger.total_shares);
    }
    lemma_shares_held_insert(ledger.accounts, id, after.accounts[id]);
}

/// A swap of token A for token B that is not refused keeps the ledger valid.
pub proof fn lemma_swap_a_for_b_keeps_valid(
    ledger: Ledger,
    id: Seq<char>,
    amount_a: nat,
    min_b: nat,
)
    requires
        ledger.valid(),
        ledger.swap_a_for_b_refusal(id, amount_a, min_b) is None,
    ensures
        ledger.swap_quote_a_for_b(amount_a) is Ok,
        ledger.after_swap_a_for_b(
            id,
            amount_a,
            ledger.swap_quote_a_for_b(amount_a)->Ok_0,
        ).valid(),
{
    lemma_holdings_within_total(ledger, id);
    let amount_b = ledger.swap_quote_a_for_b(amount_a)->Ok_0;
    let after = ledger.after_swap_a_for_b(id, amount_a, amount_b);
    lemma_same_shares_keep_valid(ledger, id, after.accounts[id], after);
}

/// A swap of token B for token A that is not refused keeps the ledger valid.
pub proof fn lemma_swap_b_for_a_keeps_valid(
    ledger: Ledger,
    id: Seq<char>,
    amount_b: nat,
    min_a: nat,
)
    requires
        ledger.valid(),
        ledger.swap_b_for_a_refusal(id, amount_b, min_a) is None,
    ensures
        ledger.swap_quote_b_for_a(amount_b) is Ok,
        ledger.after_swap_b_for_a(
            id,
            amount_b,
            ledger.swap_quote_b_for_a(amount_b)->Ok_0,
        ).valid(),
{
    lemma_holdings_within_total(ledger, id);
    let amount_a = ledger.swap_quote_b_for_a(amount_b)->Ok_0;
    let after = ledger.after_swap_b_for_a(id, amount_b, amount_a);
    lemma_same_shares_keep_valid(ledger, id, after.accounts[id], after);
}

} // verus!
