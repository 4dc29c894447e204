use amm::{Amm, Error};

fn alice() -> String {
    String::from("alice")
}

fn pool(fees: u32, reserve_a: u32, reserve_b: u32) -> Amm {
    let mut amm = Amm::new(fees);
    amm.get_free_tokens(alice(), reserve_a, reserve_b);
    amm.deposit(alice(), reserve_a, reserve_b).unwrap();
    amm
}

#[test]
fn spot_value_follows_the_ratio_of_the_reserves() {
    let amm = pool(100, 50, 100);
    assert_eq!(amm.get_token_a_swap_amount_out(10), Ok(5));
    assert_eq!(amm.get_token_b_swap_amount_out(10), Ok(20));
    assert_eq!(amm.get_token_a_swap_amount_out(7), Ok(3));
    assert_eq!(amm.get_token_b_swap_amount_out(7), Ok(14));
    assert_eq!(amm.get_token_a_swap_amount_out(0), Ok(0));
    assert_eq!(amm.get_token_b_swap_amount_out(0), Ok(0));
    assert_eq!(amm.get_token_a_swap_amount_out(u32::MAX), Ok(2_147_483_647));
}

#[test]
fn spot_value_needs_liquidity() {
    let mut amm = Amm::new(0);
    assert_eq!(amm.get_token_a_swap_amount_out(0), Err(Error::ZeroLiquidity));
    assert_eq!(amm.get_token_b_swap_amount_out(4), Err(Error::ZeroLiquidity));
    amm.get_free_tokens(alice(), 10, 10);
    assert_eq!(amm.get_token_b_swap_amount_out(4), Err(Error::ZeroLiquidity));
    let share = amm.deposit(alice(), 10, 10).unwrap();
    assert_eq!(amm.get_token_b_swap_amount_out(4), Ok(4));
    amm.withdraw(alice(), share).unwrap();
    assert_eq!(amm.get_token_b_swap_amount_out(4), Err(Error::ZeroLiquidity));
}

#[test]
fn spot_value_beyond_32_bits_overflows() {
    let amm = pool(0, 1000, 1);
    assert_eq!(amm.get_token_a_swap_amount_out(4_294_967), Ok(4_294_967_000));
    assert_eq!(amm.get_token_a_swap_amount_out(4_294_968), Err(Error::Overflow));
    assert_eq!(amm.get_token_a_swap_amount_out(u32::MAX), Err(Error::Overflow));
    assert_eq!(amm.get_token_b_swap_amount_out(u32::MAX), Ok(4_294_967));
}

#[test]
fn quote_without_fee_is_the_constant_product() {
    let amm = pool(0, 50, 100);
    assert_eq!(amm.get_swap_amount_for_token_b(50), Ok(50));
    assert_eq!(amm.get_swap_amount_for_token_b(10), Ok(17));
    assert_eq!(amm.get_swap_amount_for_token_b(1), Ok(2));
    assert_eq!(amm.get_swap_amount_for_token_b(u32::MAX), Ok(100));
    for amount in [1u32, 2, 3, 49, 50, 51, 4_999, 5_000, 5_001, 1_000_000] {
        let expected = 100 - 50 * 100 / (50 + amount as u64);
        assert_eq!(amm.get_swap_amount_for_token_b(amount), Ok(expected as u32));
    }
}

#[test]
fn quote_takes_the_fee_from_the_input() {
    // 900 * 50 / 1000 = 45 goes in; 5000 / 95 = 52 stays.
    assert_eq!(pool(100, 50, 100).get_swap_amount_for_token_b(50), Ok(48));
    // 500 * 50 / 1000 = 25 goes in; 5000 / 75 = 66 stays.
    assert_eq!(pool(500, 50, 100).get_swap_amount_for_token_b(50), Ok(34));
    // 1 * 1000 / 1000 = 1 goes in; 5000 / 51 = 98 stays.
    assert_eq!(pool(999, 50, 100).get_swap_amount_for_token_b(1000), Ok(2));
}

#[test]
fn quote_with_a_fee_is_never_above_the_quote_without() {
    for fees in [1, 3, 30, 100, 500, 999] {
        for amount in [1_000u32, 1_001, 5_000, 77_777, 1_000_000, u32::MAX] {
            let free = pool(0, 70_000, 30_000).get_swap_amount_for_token_b(amount).unwrap();
            let charged = pool(fees, 70_000, 30_000).get_swap_amount_for_token_b(amount).unwrap();
            assert!(charged <= free);
        }
    }
    assert_eq!(pool(0, 70_000, 30_000).get_swap_amount_for_token_b(5_000), Ok(2_000));
    assert_eq!(pool(30, 70_000, 30_000).get_swap_amount_for_token_b(5_000), Ok(1_944));
}

#[test]
fn rounding_can_hide_a_small_fee() {
    // 999 * 50 / 1000 = 49 goes in, and 5000 / 99 = 50 = 5000 / 100.
    assert_eq!(pool(1, 50, 100).get_swap_amount_for_token_b(50), Ok(50));
    assert_eq!(pool(0, 50, 100).get_swap_amount_for_token_b(50), Ok(50));
}

#[test]
fn quote_for_an_input_that_moves_nothing_overflows() {
    assert_eq!(pool(0, 50, 100).get_swap_amount_for_token_b(0), Err(Error::Overflow));
    assert_eq!(pool(100, 50, 100).get_swap_amount_for_token_b(1), Err(Error::Overflow));
    assert_eq!(pool(100, 50, 100).get_swap_amount_for_token_b(2), Ok(2));
    assert_eq!(pool(999, 50, 100).get_swap_amount_for_token_b(999), Err(Error::Overflow));
}

#[test]
fn quote_needs_liquidity() {
    let amm = Amm::new(100);
    assert_eq!(amm.get_swap_amount_for_token_b(50), Err(Error::ZeroLiquidity));
    assert_eq!(amm.get_swap_amount_for_token_b(0), Err(Error::ZeroLiquidity));
    assert_eq!(amm.get_swap_amount_for_token_a(50), Err(Error::ZeroLiquidity));
    assert_eq!(amm.get_swap_amount_for_token_a(0), Err(Error::ZeroLiquidity));
}

#[test]
fn quote_takes_large_reserves() {
    let amm = pool(0, 4_000_000_000, 4_000_000_000);
    assert_eq!(amm.get_swap_amount_for_token_b(1_000_000_000), Ok(800_000_000));
    assert_eq!(amm.get_swap_amount_for_token_b(4_000_000_000), Ok(2_000_000_000));
    let amm = pool(0, u32::MAX, u32::MAX);
    assert_eq!(amm.get_swap_amount_for_token_b(u32::MAX), Ok(2_147_483_648));
    assert_eq!(amm.get_swap_amount_for_token_a(2_147_483_647), Ok(4_294_967_293));
    assert_eq!(amm.get_swap_amount_for_token_a(2_147_483_648), Err(Error::Overflow));
}

#[test]
fn quote_may_be_the_whole_reserve() {
    assert_eq!(pool(0, 1, 1).get_swap_amount_for_token_b(1), Ok(1));
    assert_eq!(pool(0, 3, 7).get_swap_amount_for_token_b(19), Ok(7));
}

#[test]
fn reverse_quote_is_what_the_curve_asks_for() {
    let amm = pool(0, 50, 100);
    assert_eq!(amm.get_swap_amount_for_token_a(50), Ok(50));
    assert_eq!(amm.get_swap_amount_for_token_a(20), Ok(12));
    assert_eq!(amm.get_swap_amount_for_token_a(99), Ok(4_950));
    assert_eq!(amm.get_swap_amount_for_token_a(0), Ok(0));
}

#[test]
fn reverse_quote_adds_the_fee_on() {
    // 5000 / 50 - 50 = 50, and 50 * 1000 / 900 = 55.
    assert_eq!(pool(100, 50, 100).get_swap_amount_for_token_a(50), Ok(55));
    // 5000 / 80 - 50 = 12, and 12 * 1000 / 900 = 13.
    assert_eq!(pool(100, 50, 100).get_swap_amount_for_token_a(20), Ok(13));
    // 12 * 1000 / 1 = 12000.
    assert_eq!(pool(999, 50, 100).get_swap_amount_for_token_a(20), Ok(12_000));
}

#[test]
fn reverse_quote_of_the_whole_reserve_or_more_is_insufficient() {
    let amm = pool(0, 50, 100);
    assert_eq!(amm.get_swap_amount_for_token_a(100), Err(Error::InsufficientLiquidity));
    assert_eq!(amm.get_swap_amount_for_token_a(101), Err(Error::InsufficientLiquidity));
    assert_eq!(amm.get_swap_amount_for_token_a(u32::MAX), Err(Error::InsufficientLiquidity));
}

#[test]
fn reverse_quote_beyond_32_bits_overflows() {
    let amm = pool(0, 4_000_000_000, 4_000_000_000);
    assert_eq!(amm.get_swap_amount_for_token_a(3_999_999_999), Err(Error::Overflow));
    assert_eq!(amm.get_swap_amount_for_token_a(2_000_000_000), Ok(4_000_000_000));
    // 9_000_000 / 1 - 3000 fits, a thousand times as much does not.
    assert_eq!(pool(0, 3000, 3000).get_swap_amount_for_token_a(2999), Ok(8_997_000));
    assert_eq!(pool(999, 3000, 3000).get_swap_amount_for_token_a(2999), Err(Error::Overflow));
}

#[test]
fn quotes_change_nothing() {
    let amm = pool(30, 50, 100);
    let _ = amm.get_token_a_swap_amount_out(10);
    let _ = amm.get_token_b_swap_amount_out(10);
    let _ = amm.get_withdraw_amount(10);
    let _ = amm.get_swap_amount_for_token_a(10);
    let _ = amm.get_swap_amount_for_token_b(10);
    assert_eq!(amm.get_pool_info(), (50, 100, 100_000_000, 30));
    assert_eq!(amm.get_account_balance(alice()), (0, 0, 100_000_000));
}
