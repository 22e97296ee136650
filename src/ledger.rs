//! Specifications of the debt-share ledger: lookups, prices, global debt and
//! share issuance.
use crate::decimal::{div_spec, fits, mul_spec, ONE};
use crate::error::PoolError;
use crate::token::SyntheticToken;
use crate::user::User;
use vstd::prelude::*;

verus! {

/// The shares minted on the first issue against an empty supply.
pub const BOOTSTRAP_SHARES: u128 = 100 * ONE;

/// The sum of the debt-share balances of all accounts.
pub open spec fn share_sum(users: Seq<(u64, User)>) -> int
    decreases users.len(),
{
    if users.len() == 0 {
        0
    } else {
        share_sum(users.drop_last()) + users.last().1.global_debt_share
    }
}

/// Whether an account exists for `id`.
pub open spec fn has_user(users: Seq<(u64, User)>, id: u64) -> bool {
    exists|i: int| 0 <= i < users.len() && users[i].0 == id
}

/// The position of the account of `id`.
pub open spec fn user_index(users: Seq<(u64, User)>, id: u64) -> int {
    choose|i: int| 0 <= i < users.len() && users[i].0 == id
}

/// Whether an asset is registered under `symbol`.
pub open spec fn has_symbol(synths: Seq<SyntheticToken>, symbol: Seq<char>) -> bool {
    exists|i: int| 0 <= i < synths.len() && synths[i].asset_symbol@ == symbol
}

/// The position of the asset registered under `symbol`.
pub open spec fn symbol_index(synths: Seq<SyntheticToken>, symbol: Seq<char>) -> int {
    choose|i: int| 0 <= i < synths.len() && synths[i].asset_symbol@ == symbol
}

/// Whether an asset is issued as the token `token`.
pub open spec fn has_token(synths: Seq<SyntheticToken>, token: u64) -> bool {
    exists|i: int| 0 <= i < synths.len() && synths[i].token_resource_address == token
}

/// The position of the asset issued as the token `token`.
pub open spec fn token_index(synths: Seq<SyntheticToken>, token: u64) -> int {
    choose|i: int| 0 <= i < synths.len() && synths[i].token_resource_address == token
}

/// The first quote for `asset` in `prices` from position `i` on.
pub open spec fn price_from(prices: Seq<(u64, u128)>, asset: u64, i: int) -> Option<u128>
    decreases prices.len() - i,
{
    if i < 0 || i >= prices.len() {
        None
    } else if prices[i].0 == asset {
        Some(prices[i].1)
    } else {
        price_from(prices, asset, i + 1)
    }
}

/// The quote for `asset` in a price table: the first entry for it.
pub open spec fn price_of(prices: Seq<(u64, u128)>, asset: u64) -> Option<u128> {
    price_from(prices, asset, 0)
}

/// The value of the first `n` assets in circulation at `prices`, summed in
/// order; fails on the first missing quote or value out of range.
pub open spec fn debt_prefix(synths: Seq<SyntheticToken>, prices: Seq<(u64, u128)>, n: int) -> Result<int, PoolError>
    decreases n,
{
    if n <= 0 {
        Ok(0)
    } else {
        match debt_prefix(synths, prices, n - 1) {
            Err(e) => Err(e),
            Ok(acc) => match price_of(prices, synths[n - 1].asset_address) {
                None => Err(PoolError::PriceUnavailable),
                Some(p) => {
                    let v = mul_spec(p as int, synths[n - 1].circulating_supply as int);
                    if !fits(v) || !fits(acc + v) {
                        Err(PoolError::Overflow)
                    } else {
                        Ok(acc + v)
                    }
                },
            },
        }
    }
}

/// The global debt: the value of every registered asset in circulation.
pub open spec fn global_debt_spec(synths: Seq<SyntheticToken>, prices: Seq<(u64, u128)>) -> Result<int, PoolError> {
    debt_prefix(synths, prices, synths.len() as int)
}

/// The shares issued for new debt `value` against `supply` shares standing for
/// `global_debt`.
pub open spec fn issue_spec(value: int, supply: int, global_debt: int) -> Result<int, PoolError> {
    if supply == 0 {
        Ok(BOOTSTRAP_SHARES as int)
    } else if global_debt == 0 {
        Err(PoolError::ZeroGlobalDebt)
    } else if !fits(mul_spec(value, supply)) || !fits(div_spec(mul_spec(value, supply), global_debt)) {
        Err(PoolError::Overflow)
    } else {
        Ok(div_spec(mul_spec(value, supply), global_debt))
    }
}

/// The shares withdrawn for removed debt `value` from `supply` shares standing
/// for `global_debt`.
pub open spec fn retire_spec(value: int, supply: int, global_debt: int) -> Result<int, PoolError> {
    if global_debt == 0 {
        Err(PoolError::ZeroGlobalDebt)
    } else if !fits(mul_spec(supply, value)) || !fits(div_spec(mul_spec(supply, value), global_debt)) {
        Err(PoolError::Overflow)
    } else {
        Ok(div_spec(mul_spec(supply, value), global_debt))
    }
}

/// Replacing one balance changes the sum by the difference.
pub proof fn lemma_share_sum_update(users: Seq<(u64, User)>, i: int, e: (u64, User))
    requires
        0 <= i < users.len(),
    ensures
        share_sum(users.update(i, e)) == share_sum(users) - users[i].1.global_debt_share
            + e.1.global_debt_share,
    decreases users.len(),
{
    let u2 = users.update(i, e);
    if i == users.len() - 1 {
        assert(u2.drop_last() =~= users.drop_last());
    } else {
        lemma_share_sum_update(users.drop_last(), i, e);
        assert(u2.drop_last() =~= users.drop_last().update(i, e));
    }
}

/// Appending an account adds its balance to the sum.
pub proof fn lemma_share_sum_push(users: Seq<(u64, User)>, e: (u64, User))
    ensures
        share_sum(users.push(e)) == share_sum(users) + e.1.global_debt_share,
{
    assert(users.push(e).drop_last() =~= users);
}

/// No balance exceeds the sum.
pub proof fn lemma_share_le_sum(users: Seq<(u64, User)>, i: int)
    requires
        0 <= i < users.len(),
    ensures
        users[i].1.global_debt_share <= share_sum(users),
        share_sum(users) >= 0,
    decreases users.len(),
{
    lemma_share_sum_nonneg(users.drop_last());
    if i < users.len() - 1 {
        lemma_share_le_sum(users.drop_last(), i);
    }
}

/// The sum of balances is never negative.
pub proof fn lemma_share_sum_nonneg(users: Seq<(u64, User)>)
    ensures
        share_sum(users) >= 0,
    decreases users.len(),
{
    if users.len() > 0 {
        lemma_share_sum_nonneg(users.drop_last());
    }
}

} // verus!
