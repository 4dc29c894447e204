//! The arithmetic of the pool: proportions rounded down, the fee, and the
//! constant-product curve.

use vstd::prelude::*;

verus! {

/// The fee rate is counted in parts of this.
pub const FEE_DENOMINATOR: u32 = 1000;

/// The scale of a share.
pub const PRECISION: u32 = 1_000_000;

/// What the first deposit into an empty pool mints, whatever is deposited.
pub const BOOTSTRAP_SHARES: u32 = 100 * PRECISION;

/// `amount` scaled by `numerator / denominator`, rounded down.
///
/// Every proportional quantity of the ledger has this shape: a spot value
/// (`reserve_out * amount / reserve_in`), a share of a reserve
/// (`reserve * share / total_shares`), the shares a deposit is worth
/// (`total_shares * amount / reserve`).
pub open spec fn scaled(amount: nat, numerator: nat, denominator: nat) -> nat
    recommends
        denominator > 0,
{
    amount * numerator / denominator
}

/// What is left of a swap's input once the fee is taken, rounded down.
pub open spec fn net_of_fee(amount: nat, fee_rate: nat) -> nat
    recommends
        fee_rate < FEE_DENOMINATOR,
{
    scaled(amount, (FEE_DENOMINATOR - fee_rate) as nat, FEE_DENOMINATOR as nat)
}

/// The input that is `amount` once the fee is taken, rounded down.
pub open spec fn gross_of_fee(amount: nat, fee_rate: nat) -> nat
    recommends
        fee_rate < FEE_DENOMINATOR,
{
    scaled(amount, FEE_DENOMINATOR as nat, (FEE_DENOMINATOR - fee_rate) as nat)
}

/// Where the other reserve stands on the curve `x * y = reserve_x * reserve_y`
/// once this side holds `x`, rounded down.
pub open spec fn curve_point(reserve_x: nat, reserve_y: nat, x: nat) -> nat
    recommends
        x > 0,
{
    reserve_x * reserve_y / x
}

/// What the curve releases from `reserve_out` when `input` is added to
/// `reserve_in`.
pub open spec fn curve_output(reserve_in: nat, reserve_out: nat, input: nat) -> nat
    recommends
        reserve_in + input > 0,
{
    (reserve_out - curve_point(reserve_in, reserve_out, reserve_in + input)) as nat
}

/// What the curve asks to be added to `reserve_in` for `output` to leave
/// `reserve_out`.
pub open spec fn curve_input(reserve_in: nat, reserve_out: nat, output: nat) -> nat
    recommends
        output < reserve_out,
{
    (curve_point(reserve_out, reserve_in, (reserve_out - output) as nat) - reserve_in) as nat
}

/// A part of a whole is no more than the whole.
pub proof fn lemma_scaled_within(amount: nat, numerator: nat, denominator: nat)
    requires
        0 < denominator,
        numerator <= denominator,
    ensures
        scaled(amount, numerator, denominator) <= amount,
{
    assert(amount * numerator / denominator <= amount) by (nonlinear_arith)
        requires
            0 < denominator,
            numerator <= denominator,
    ;
}

/// The whole of it is the amount itself.
pub proof fn lemma_scaled_whole(amount: nat, denominator: nat)
    requires
        0 < denominator,
    ensures
        scaled(amount, denominator, denominator) == amount,
{
    assert(amount * denominator / denominator == amount) by (nonlinear_arith)
        requires
            0 < denominator,
    ;
}

/// A proper part of something is less than it.
pub proof fn lemma_scaled_proper(amount: nat, numerator: nat, denominator: nat)
    requires
        0 < amount,
        numerator < denominator,
    ensures
        scaled(amount, numerator, denominator) < amount,
{
    assert(amount * numerator / denominator < amount) by (nonlinear_arith)
        requires
            0 < amount,
            0 <= numerator < denominator,
    ;
}

/// The fee takes something or nothing, and never adds.
pub proof fn lemma_net_of_fee_within(amount: nat, fee_rate: nat)
    requires
        fee_rate < FEE_DENOMINATOR,
    ensures
        net_of_fee(amount, fee_rate) <= amount,
        fee_rate == 0 ==> net_of_fee(amount, fee_rate) == amount,
{
    lemma_scaled_within(amount, (FEE_DENOMINATOR - fee_rate) as nat, FEE_DENOMINATOR as nat);
    if fee_rate == 0 {
        lemma_scaled_whole(amount, FEE_DENOMINATOR as nat);
    }
}

/// Adding to one side of the curve never raises the other, and a positive
/// input lowers it.
pub proof fn lemma_curve_point_falls(reserve_x: nat, reserve_y: nat, x: nat)
    requires
        0 < reserve_x <= x,
    ensures
        curve_point(reserve_x, reserve_y, x) <= reserve_y,
        x == reserve_x ==> curve_point(reserve_x, reserve_y, x) == reserve_y,
        reserve_x < x && 0 < reserve_y ==> curve_point(reserve_x, reserve_y, x) < reserve_y,
{
    assert(reserve_x * reserve_y == reserve_y * reserve_x) by (nonlinear_arith);
    lemma_scaled_within(reserve_y, reserve_x, x);
    if x == reserve_x {
        lemma_scaled_whole(reserve_y, x);
    }
    if reserve_x < x && 0 < reserve_y {
        lemma_scaled_proper(reserve_y, reserve_x, x);
    }
}

/// Taking from one side of the curve never lowers the other.
pub proof fn lemma_curve_point_rises(reserve_x: nat, reserve_y: nat, x: nat)
    requires
        0 < x <= reserve_x,
    ensures
        reserve_y <= curve_point(reserve_x, reserve_y, x),
{
    assert(reserve_y <= reserve_x * reserve_y / x) by (nonlinear_arith)
        requires
            0 < x <= reserve_x,
            0 <= reserve_y,
    ;
}

/// The curve pays nothing exactly for no input.
pub proof fn lemma_curve_output_zero(reserve_in: nat, reserve_out: nat, input: nat)
    requires
        0 < reserve_in,
        0 < reserve_out,
    ensures
        curve_output(reserve_in, reserve_out, input) <= reserve_out,
        curve_output(reserve_in, reserve_out, input) == 0 <==> input == 0,
{
    lemma_curve_point_falls(reserve_in, reserve_out, reserve_in + input);
}

/// The curve pays no less for a larger input.
pub proof fn lemma_curve_output_grows(reserve_in: nat, reserve_out: nat, smaller: nat, larger: nat)
    requires
        0 < reserve_in,
        smaller <= larger,
    ensures
        curve_output(reserve_in, reserve_out, smaller) <= curve_output(
            reserve_in,
            reserve_out,
            larger,
        ),
{
    lemma_curve_point_falls(reserve_in, reserve_out, reserve_in + smaller);
    lemma_curve_point_falls(reserve_in, reserve_out, reserve_in + larger);
    let product = reserve_in * reserve_out;
    assert(product / (reserve_in + larger) <= product / (reserve_in + smaller))
        by (nonlinear_arith)
        requires
            0 <= product,
            0 < reserve_in + smaller <= reserve_in + larger,
    ;
}

/// A quotient rounded down reaches `bound` exactly when the dividend reaches
/// `bound` times the divisor.
pub proof fn lemma_quotient_reaches(dividend: nat, divisor: nat, bound: nat)
    requires
        0 < divisor,
    ensures
        dividend / divisor >= bound <==> dividend >= bound * divisor,
{
    assert(dividend / divisor >= bound <==> dividend >= bound * divisor) by (nonlinear_arith)
        requires
            0 < divisor,
            0 <= dividend,
            0 <= bound,
    ;
}

/// `amount * numerator / denominator`, rounded down. The product of two
/// 32-bit numbers fits in 64 bits.
pub(crate) fn mul_div(amount: u32, numerator: u32, denominator: u32) -> (quotient: u64)
    requires
        denominator > 0,
    ensures
        quotient == scaled(amount as nat, numerator as nat, denominator as nat),
{
    assert(amount * numerator <= u64::MAX) by (nonlinear_arith)
        requires
            amount <= u32::MAX,
            numerator <= u32::MAX,
    ;
    (amount as u64) * (numerator as u64) / (denominator as u64)
}

} // verus!
