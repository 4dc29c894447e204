//! What accounts hold, and the sum of their shares.

use vstd::prelude::*;

verus! {

/// What one account holds: tokens not committed to the pool, and shares of
/// the pool.
pub struct Holdings {
    pub token_a: nat,
    pub token_b: nat,
    pub shares: nat,
}

impl Holdings {
    /// What an account that was never credited holds.
    pub open spec fn nothing() -> Holdings {
        Holdings { token_a: 0, token_b: 0, shares: 0 }
    }

    /// Every amount fits in 32 bits.
    pub open spec fn bounded(self) -> bool {
        &&& self.token_a <= u32::MAX
        &&& self.token_b <= u32::MAX
        &&& self.shares <= u32::MAX
    }
}

/// The sum of the shares of all accounts.
pub open spec fn shares_held(accounts: Map<Seq<char>, Holdings>) -> nat
    decreases accounts.dom().len(),
    when accounts.dom().finite()
    via shares_held_terminates
{
    if accounts.dom().len() == 0 {
        0
    } else {
        let id = accounts.dom().choose();
        accounts[id].shares + shares_held(accounts.remove(id))
    }
}

#[via_fn]
proof fn shares_held_terminates(accounts: Map<Seq<char>, Holdings>) {
    if accounts.dom().len() != 0 {
        let id = accounts.dom().choose();
        vstd::set_lib::lemma_set_empty_equivalency_len(accounts.dom());
        assert(accounts.dom().contains(id));
        assert(accounts.remove(id).dom() == accounts.dom().remove(id));
    }
}

/// The sum does not depend on the order in which the accounts are taken:
/// any one of them can be split off.
pub proof fn lemma_shares_held_split(accounts: Map<Seq<char>, Holdings>, id: Seq<char>)
    requires
        accounts.dom().finite(),
        accounts.contains_key(id),
    ensures
        shares_held(accounts) == accounts[id].shares + shares_held(accounts.remove(id)),
    decreases accounts.dom().len(),
{
    vstd::set_lib::lemma_set_empty_equivalency_len(accounts.dom());
    let first = accounts.dom().choose();
    if first != id {
        lemma_shares_held_split(accounts.remove(first), id);
        lemma_shares_held_split(accounts.remove(id), first);
        assert(accounts.remove(first).remove(id) =~= accounts.remove(id).remove(first));
    }
}

/// Replacing what one account holds moves the sum by the difference of its
/// shares. An account that was absent counts as holding none.
pub proof fn lemma_shares_held_insert(
    accounts: Map<Seq<char>, Holdings>,
    id: Seq<char>,
    held: Holdings,
)
    requires
        accounts.dom().finite(),
    ensures
        shares_held(accounts.insert(id, held)) + (if accounts.contains_key(id) {
            accounts[id].shares
        } else {
            0
        }) == shares_held(accounts) + held.shares,
{
    let updated = accounts.insert(id, held);
    lemma_shares_held_split(updated, id);
    assert(updated.remove(id) =~= accounts.remove(id));
    if accounts.contains_key(id) {
        lemma_shares_held_split(accounts, id);
    } else {
        assert(accounts.remove(id) =~= accounts);
    }
}

} // verus!
