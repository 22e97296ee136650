//! A user's collateral account and the solvency check on it.
use crate::decimal::{checked_div, checked_mul, div_spec, fits, mul_spec, ONE};
use crate::error::PoolError;
use vstd::prelude::*;

verus! {

/// Staked collateral and debt shares of one user, both in attos.
#[derive(Clone, Copy, Debug, PartialEq, Eq, Structural)]
pub struct User {
    pub snx: u128,
    pub global_debt_share: u128,
}

/// The part of the global debt that `shares` out of `supply` stand for.
pub open spec fn user_debt_spec(global_debt: int, shares: int, supply: int) -> int {
    div_spec(mul_spec(global_debt, shares), supply)
}

/// The outcome of the solvency check on an account holding `snx` collateral at
/// `snx_price` and `shares` of `supply` debt shares over `global_debt`.
pub open spec fn collateral_check_spec(
    snx: int,
    shares: int,
    snx_price: int,
    global_debt: int,
    supply: int,
    threshold: int,
) -> Result<(), PoolError> {
    if supply == 0 || shares == 0 {
        Ok(())
    } else if !fits(mul_spec(global_debt, shares)) || !fits(user_debt_spec(global_debt, shares, supply)) {
        Err(PoolError::Overflow)
    } else if user_debt_spec(global_debt, shares, supply) == 0 {
        Ok(())
    } else if !fits(mul_spec(snx, snx_price)) {
        Err(PoolError::Overflow)
    } else if mul_spec(snx, snx_price) * (ONE as int) < threshold * user_debt_spec(global_debt, shares, supply) {
        Err(PoolError::Undercollateralized)
    } else {
        Ok(())
    }
}

impl User {
    /// An account with nothing staked and no debt.
    pub fn new() -> (r: User)
        ensures
            r.snx == 0,
            r.global_debt_share == 0,
    {
        User { snx: 0, global_debt_share: 0 }
    }

    /// Checks that the collateral value over the account's share of the global
    /// debt is at least `threshold`; accounts without debt always pass.
    pub fn check_collateralization_ratio(
        &self,
        snx_price: u128,
        global_debt: u128,
        total_share_supply: u128,
        threshold: u128,
    ) -> (r: Result<(), PoolError>)
        ensures
            r == collateral_check_spec(
                self.snx as int,
                self.global_debt_share as int,
                snx_price as int,
                global_debt as int,
                total_share_supply as int,
                threshold as int,
            ),
    {
        if total_share_supply == 0 || self.global_debt_share == 0 {
            return Ok(());
        }
        let owed = match checked_mul(global_debt, self.global_debt_share) {
            Some(v) => v,
            None => return Err(PoolError::Overflow),
        };
        let user_debt = match checked_div(owed, total_share_supply) {
            Some(v) => v,
            None => return Err(PoolError::Overflow),
        };
        if user_debt == 0 {
            return Ok(());
        }
        let value = match checked_mul(self.snx, snx_price) {
            Some(v) => v,
            None => return Err(PoolError::Overflow),
        };
        match checked_div(value, user_debt) {
            None => {
                proof {
                    lemma_ratio_above(value as int, user_debt as int, threshold as int);
                }
                Ok(())
            },
            Some(ratio) => {
                proof {
                    lemma_ratio_compare(value as int, user_debt as int, threshold as int);
                }
                if ratio < threshold {
                    Err(PoolError::Undercollateralized)
                } else {
                    Ok(())
                }
            },
        }
    }
}

/// A ratio too large for an amount is above every threshold.
proof fn lemma_ratio_above(value: int, debt: int, threshold: int)
    requires
        debt > 0,
        value >= 0,
        0 <= threshold <= u128::MAX,
        !fits(div_spec(value, debt)),
    ensures
        value * (ONE as int) >= threshold * debt,
{
    let q = value * (ONE as int) / debt;
    assert(value * (ONE as int) >= 0) by (nonlinear_arith)
        requires value >= 0;
    assert(q >= 0) by (nonlinear_arith)
        requires value * (ONE as int) >= 0, debt > 0, q == value * (ONE as int) / debt;
    assert(q * debt <= value * (ONE as int)) by (nonlinear_arith)
        requires debt > 0, q == value * (ONE as int) / debt;
    assert(threshold * debt <= q * debt) by (nonlinear_arith)
        requires threshold <= q, debt > 0;
}

/// Comparing the truncated ratio with an integral threshold is comparing the
/// exact ratio with it.
proof fn lemma_ratio_compare(value: int, debt: int, threshold: int)
    requires
        debt > 0,
        value >= 0,
        threshold >= 0,
    ensures
        (div_spec(value, debt) < threshold) == (value * (ONE as int) < threshold * debt),
{
    let n = value * (ONE as int);
    let q = n / debt;
    assert(q * debt <= n && n < (q + 1) * debt) by (nonlinear_arith)
        requires debt > 0, q == n / debt;
    if q < threshold {
        assert(n < threshold * debt) by (nonlinear_arith)
            requires n < (q + 1) * debt, q + 1 <= threshold, debt > 0;
    } else {
        assert(threshold * debt <= n) by (nonlinear_arith)
            requires q * debt <= n, threshold <= q, debt > 0;
    }
}

} // verus!
