use amm::{Amm, Error};

fn alice() -> String {
    String::from("alice")
}

fn bob() -> String {
    String::from("bob")
}

/// A pool that alice funded, and bob with tokens to trade.
fn market(fees: u32, reserve_a: u32, reserve_b: u32, token_a: u32, token_b: u32) -> Amm {
    let mut amm = Amm::new(fees);
    amm.get_free_tokens(alice(), reserve_a, reserve_b);
    amm.deposit(alice(), reserve_a, reserve_b).unwrap();
    amm.get_free_tokens(bob(), token_a, token_b);
    amm
}

#[test]
fn swap_pays_the_quote_and_keeps_the_fee_in_the_pool() {
    let mut amm = market(100, 50, 100, 60, 5);
    assert_eq!(amm.get_swap_amount_for_token_b(50), Ok(48));
    assert_eq!(amm.swap_token_a_for_token_b(bob(), 50, 48), Ok(48));
    assert_eq!(amm.get_pool_info(), (100, 52, 100_000_000, 100));
    assert_eq!(amm.get_account_balance(bob()), (10, 53, 0));
    assert_eq!(amm.get_account_balance(alice()), (0, 0, 100_000_000));
}

#[test]
fn swap_without_fee_pays_the_constant_product() {
    for amount in [1u32, 7, 50, 333, 4_950] {
        let mut amm = market(0, 50, 100, 5_000, 0);
        let expected = (100 - 50 * 100 / (50 + amount as u64)) as u32;
        assert_eq!(amm.swap_token_a_for_token_b(bob(), amount, 0), Ok(expected));
        assert_eq!(amm.get_pool_info(), (50 + amount, 100 - expected, 100_000_000, 0));
        assert_eq!(amm.get_account_balance(bob()), (5_000 - amount, expected, 0));
    }
}

#[test]
fn swap_below_the_minimum_is_slippage_and_changes_nothing() {
    let mut amm = market(100, 50, 100, 60, 5);
    assert_eq!(amm.swap_token_a_for_token_b(bob(), 50, 49), Err(Error::SlippageExceeded));
    assert_eq!(amm.swap_token_a_for_token_b(bob(), 50, u32::MAX), Err(Error::SlippageExceeded));
    assert_eq!(amm.get_pool_info(), (50, 100, 100_000_000, 100));
    assert_eq!(amm.get_account_balance(bob()), (60, 5, 0));
    assert_eq!(amm.swap_token_b_for_token_a(bob(), 5, 3), Err(Error::SlippageExceeded));
    assert_eq!(amm.get_pool_info(), (50, 100, 100_000_000, 100));
    assert_eq!(amm.get_account_balance(bob()), (60, 5, 0));
}

#[test]
fn swap_of_nothing_is_a_zero_amount() {
    let mut amm = market(0, 50, 100, 60, 5);
    assert_eq!(amm.swap_token_a_for_token_b(bob(), 0, 0), Err(Error::ZeroAmount));
    assert_eq!(amm.swap_token_b_for_token_a(bob(), 0, 0), Err(Error::ZeroAmount));
    assert_eq!(amm.get_pool_info(), (50, 100, 100_000_000, 0));
    assert_eq!(amm.get_account_balance(bob()), (60, 5, 0));
}

#[test]
fn swap_beyond_the_balance_is_insufficient() {
    let mut amm = market(0, 50, 100, 60, 5);
    assert_eq!(amm.swap_token_a_for_token_b(bob(), 61, 0), Err(Error::InsufficientAmount));
    assert_eq!(amm.swap_token_b_for_token_a(bob(), 6, 0), Err(Error::InsufficientAmount));
    assert_eq!(amm.swap_token_a_for_token_b(alice(), 1, 0), Err(Error::InsufficientAmount));
    assert_eq!(
        amm.swap_token_a_for_token_b(String::from("carol"), 1, 0),
        Err(Error::InsufficientAmount)
    );
    assert_eq!(amm.get_pool_info(), (50, 100, 100_000_000, 0));
    assert_eq!(amm.get_account_balance(bob()), (60, 5, 0));
}

#[test]
fn swap_needs_liquidity() {
    let mut amm = Amm::new(0);
    amm.get_free_tokens(bob(), 60, 5);
    assert_eq!(amm.swap_token_a_for_token_b(bob(), 10, 0), Err(Error::ZeroLiquidity));
    assert_eq!(amm.swap_token_b_for_token_a(bob(), 5, 0), Err(Error::ZeroLiquidity));
    assert_eq!(amm.get_account_balance(bob()), (60, 5, 0));
}

#[test]
fn swap_too_small_to_move_the_price_overflows() {
    let mut amm = market(100, 50, 100, 60, 5);
    assert_eq!(amm.swap_token_a_for_token_b(bob(), 1, 0), Err(Error::Overflow));
    assert_eq!(amm.get_pool_info(), (50, 100, 100_000_000, 100));
    assert_eq!(amm.get_account_balance(bob()), (60, 5, 0));
    assert_eq!(amm.swap_token_a_for_token_b(bob(), 2, 0), Ok(2));
}

#[test]
fn swap_may_not_empty_the_reserve() {
    let mut amm = market(0, 1, 1, 10, 0);
    assert_eq!(amm.get_swap_amount_for_token_b(1), Ok(1));
    assert_eq!(amm.swap_token_a_for_token_b(bob(), 1, 1), Err(Error::InsufficientLiquidity));
    assert_eq!(amm.swap_token_a_for_token_b(bob(), 1, 2), Err(Error::SlippageExceeded));
    assert_eq!(amm.get_pool_info(), (1, 1, 100_000_000, 0));
    assert_eq!(amm.get_account_balance(bob()), (10, 0, 0));

    let mut amm = market(0, 3, 7, 100, 0);
    assert_eq!(amm.swap_token_a_for_token_b(bob(), 19, 0), Err(Error::InsufficientLiquidity));
    assert_eq!(amm.swap_token_a_for_token_b(bob(), 18, 0), Ok(6));
    assert_eq!(amm.get_pool_info(), (21, 1, 100_000_000, 0));
}

#[test]
fn swap_that_would_not_fit_overflows() {
    let mut amm = market(0, 50, 100, 60, u32::MAX - 16);
    assert_eq!(amm.swap_token_a_for_token_b(bob(), 10, 0), Err(Error::Overflow));
    assert_eq!(amm.get_pool_info(), (50, 100, 100_000_000, 0));
    assert_eq!(amm.get_account_balance(bob()), (60, u32::MAX - 16, 0));

    let mut amm = market(0, u32::MAX - 5, u32::MAX, 60, 0);
    assert_eq!(amm.swap_token_a_for_token_b(bob(), 6, 0), Err(Error::Overflow));
    assert_eq!(amm.swap_token_a_for_token_b(bob(), 5, 0), Ok(5));
    assert_eq!(amm.get_pool_info(), (u32::MAX, u32::MAX - 5, 100_000_000, 0));
}

#[test]
fn reverse_swap_pays_the_reverse_quote() {
    let mut amm = market(0, 50, 100, 0, 100);
    assert_eq!(amm.get_swap_amount_for_token_a(20), Ok(12));
    assert_eq!(amm.swap_token_b_for_token_a(bob(), 20, 12), Ok(12));
    assert_eq!(amm.get_pool_info(), (38, 120, 100_000_000, 0));
    assert_eq!(amm.get_account_balance(bob()), (12, 80, 0));
}

#[test]
fn reverse_swap_with_a_fee() {
    let mut amm = market(100, 50, 100, 1, 100);
    assert_eq!(amm.swap_token_b_for_token_a(bob(), 20, 0), Ok(13));
    assert_eq!(amm.get_pool_info(), (37, 120, 100_000_000, 100));
    assert_eq!(amm.get_account_balance(bob()), (14, 80, 0));
}

#[test]
fn reverse_swap_is_insufficient_where_the_quote_or_the_payout_is() {
    let mut amm = market(0, 50, 100, 0, 1_000);
    // The quote itself: the whole B reserve or more.
    assert_eq!(amm.swap_token_b_for_token_a(bob(), 100, 0), Err(Error::InsufficientLiquidity));
    assert_eq!(amm.swap_token_b_for_token_a(bob(), 500, 0), Err(Error::InsufficientLiquidity));
    // The payout: 5000 / 50 - 50 = 50 is the whole A reserve.
    assert_eq!(amm.swap_token_b_for_token_a(bob(), 50, 0), Err(Error::InsufficientLiquidity));
    assert_eq!(amm.swap_token_b_for_token_a(bob(), 99, 0), Err(Error::InsufficientLiquidity));
    assert_eq!(amm.swap_token_b_for_token_a(bob(), 50, 51), Err(Error::SlippageExceeded));
    assert_eq!(amm.get_pool_info(), (50, 100, 100_000_000, 0));
    assert_eq!(amm.get_account_balance(bob()), (0, 1_000, 0));
    // 5000 / 51 - 50 = 48
    assert_eq!(amm.swap_token_b_for_token_a(bob(), 49, 0), Ok(48));
    assert_eq!(amm.get_pool_info(), (2, 149, 100_000_000, 0));
}

#[test]
fn reverse_swap_that_would_not_fit_overflows() {
    let mut amm = market(0, 4_000_000_000, 4_000_000_000, 0, 4_000_000_000);
    assert_eq!(amm.swap_token_b_for_token_a(bob(), 3_999_999_999, 0), Err(Error::Overflow));
    // 1.6e19 / 3e9 - 4e9 = 1_333_333_333, but the B reserve would pass 32 bits.
    assert_eq!(amm.swap_token_b_for_token_a(bob(), 1_000_000_000, 0), Err(Error::Overflow));
    assert_eq!(amm.get_pool_info(), (4_000_000_000, 4_000_000_000, 100_000_000, 0));
    assert_eq!(amm.get_account_balance(bob()), (0, 4_000_000_000, 0));

    let mut amm = market(0, 50, 100, u32::MAX - 11, 100);
    assert_eq!(amm.swap_token_b_for_token_a(bob(), 20, 0), Err(Error::Overflow));
    assert_eq!(amm.get_account_balance(bob()), (u32::MAX - 11, 100, 0));
}

#[test]
fn swaps_leave_the_shares_alone() {
    let mut amm = market(3, 1_000, 2_000, 500, 500);
    amm.deposit(bob(), 100, 200).unwrap();
    let shares = amm.get_pool_info().2;
    amm.swap_token_a_for_token_b(bob(), 100, 1).unwrap();
    amm.swap_token_b_for_token_a(bob(), 10, 1).unwrap();
    assert_eq!(amm.get_pool_info().2, shares);
    assert_eq!(amm.get_account_balance(alice()).2, 100_000_000);
    assert_eq!(amm.get_account_balance(bob()).2, 10_000_000);
}
