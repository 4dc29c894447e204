use amm::{Amm, Error};

fn get_account_id() -> String {
    String::from("account-1")
}

#[test]
fn test_constructor() {
    let amm = Amm::new(0);
    assert_eq!(amm.get_account_balance(get_account_id()), (0, 0, 0));
    assert_eq!(amm.get_pool_info(), (0, 0, 0, 0));
}

#[test]
fn test_get_free_tokens() {
    let mut amm = Amm::new(100);
    amm.get_free_tokens(get_account_id(), 100, 200);
    assert_eq!(amm.get_account_balance(get_account_id()), (100, 200, 0));
}

#[test]
#[allow(unused_mut)]
fn test_zero_liquidity() {
    let mut amm = Amm::new(100);
    let res = amm.get_token_a_swap_amount_out(4);
    assert_eq!(res, Err(Error::ZeroLiquidity));
}

#[test]
fn test_deposit() {
    let mut amm = Amm::new(100);
    amm.get_free_tokens(get_account_id(), 100, 200);
    let share = amm.deposit(get_account_id(), 10, 20).unwrap();
    assert_eq!(share, 100_000_000);
    assert_eq!(amm.get_pool_info(), (10, 20, share, 100));
    assert_eq!(amm.get_account_balance(get_account_id()), (90, 180, share));
}

#[test]
fn test_withdraw() {
    let mut amm = Amm::new(0);
    amm.get_free_tokens(get_account_id(), 100, 200);
    let share = amm.deposit(get_account_id(), 10, 20).unwrap();
    assert_eq!(amm.withdraw(get_account_id(), share / 5).unwrap(), (2, 4));
    assert_eq!(amm.get_pool_info(), (8, 16, 4 * share / 5, 0));
}

#[test]
fn test_swap() {
    let mut amm = Amm::new(0);
    amm.get_free_tokens(get_account_id(), 100, 200);
    let share = amm.deposit(get_account_id(), 50, 100).unwrap();
    let token_b_amount = amm.swap_token_a_for_token_b(get_account_id(), 50, 50).unwrap();
    assert_eq!(token_b_amount, 50);
    assert_eq!(amm.get_pool_info(), (100, 50, share, 0));
    assert_eq!(amm.get_account_balance(get_account_id()), (0, 150, share));
}

#[test]
fn test_slippage() {
    let mut amm = Amm::new(0);
    amm.get_free_tokens(get_account_id(), 100, 200);
    let share = amm.deposit(get_account_id(), 50, 100).unwrap();
    let token_b_amount = amm.swap_token_a_for_token_b(get_account_id(), 50, 51);
    assert_eq!(token_b_amount, Err(Error::SlippageExceeded));
    assert_eq!(amm.get_pool_info(), (50, 100, share, 0));
    assert_eq!(amm.get_account_balance(get_account_id()), (50, 100, share));
}

#[test]
fn test_fees() {
    let mut amm = Amm::new(100);
    amm.get_free_tokens(get_account_id(), 100, 200);
    let share = amm.deposit(get_account_id(), 50, 100).unwrap();
    assert_eq!(share, 100_000_000);
    let token_b_amount = amm.get_swap_amount_for_token_b(50).unwrap();
    assert_eq!(token_b_amount, 48);
}
