//! The synthetic pool: collateral accounts, the asset registry and the global
//! debt-share ledger, with the operations that change them.
use crate::decimal::{checked_div, checked_mul, fits, mul_spec};
use crate::error::PoolError;
use crate::ledger::{
    debt_prefix, global_debt_spec, has_symbol, has_token, has_user, issue_spec, lemma_share_le_sum,
    lemma_share_sum_push, lemma_share_sum_update, price_from, price_of, retire_spec, share_sum,
    symbol_index, token_index, user_index, BOOTSTRAP_SHARES,
};
use crate::token::{with_supply, SyntheticToken};
use crate::user::{collateral_check_spec, User};
use vstd::prelude::*;

verus! {

/// The shares issued for new debt `value` against `supply` shares standing for
/// `global_debt`: a fixed amount on the first issue, else the part of the
/// supply that `value` is of the global debt.
pub fn issue_shares(value: u128, supply: u128, global_debt: u128) -> (r: Result<u128, PoolError>)
    ensures
        r matches Ok(s) ==> issue_spec(value as int, supply as int, global_debt as int) == Ok::<int, PoolError>(s as int),
        r matches Err(e) ==> issue_spec(value as int, supply as int, global_debt as int) == Err::<int, PoolError>(e),
{
    if supply == 0 {
        return Ok(BOOTSTRAP_SHARES);
    }
    if global_debt == 0 {
        return Err(PoolError::ZeroGlobalDebt);
    }
    let m = match checked_mul(value, supply) {
        Some(m) => m,
        None => return Err(PoolError::Overflow),
    };
    match checked_div(m, global_debt) {
        Some(s) => Ok(s),
        None => Err(PoolError::Overflow),
    }
}

/// The shares withdrawn for removed debt `value` from `supply` shares standing
/// for `global_debt`: the part of the supply that `value` is of the global debt.
pub fn retire_shares(value: u128, supply: u128, global_debt: u128) -> (r: Result<u128, PoolError>)
    ensures
        r matches Ok(s) ==> retire_spec(value as int, supply as int, global_debt as int) == Ok::<int, PoolError>(s as int),
        r matches Err(e) ==> retire_spec(value as int, supply as int, global_debt as int) == Err::<int, PoolError>(e),
{
    if global_debt == 0 {
        return Err(PoolError::ZeroGlobalDebt);
    }
    let m = match checked_mul(supply, value) {
        Some(m) => m,
        None => return Err(PoolError::Overflow),
    };
    match checked_div(m, global_debt) {
        Some(s) => Ok(s),
        None => Err(PoolError::Overflow),
    }
}

/// The quote for `asset` in a price table, or `PriceUnavailable`.
pub fn lookup_price(prices: &Vec<(u64, u128)>, asset: u64) -> (r: Result<u128, PoolError>)
    ensures
        r == (match price_of(prices@, asset) {
            Some(p) => Ok::<u128, PoolError>(p),
            None => Err(PoolError::PriceUnavailable),
        }),
{
    let mut i: usize = 0;
    while i < prices.len()
        invariant
            0 <= i <= prices.len(),
            price_from(prices@, asset, 0) == price_from(prices@, asset, i as int),
        decreases prices.len() - i,
    {
        if prices[i].0 == asset {
            return Ok(prices[i].1);
        }
        i = i + 1;
    }
    Err(PoolError::PriceUnavailable)
}

/// The value of every asset of `synths` in circulation at `prices`.
pub fn global_debt_of(synths: &Vec<SyntheticToken>, prices: &Vec<(u64, u128)>) -> (r: Result<u128, PoolError>)
    ensures
        r matches Ok(d) ==> global_debt_spec(synths@, prices@) == Ok::<int, PoolError>(d as int),
        r matches Err(e) ==> global_debt_spec(synths@, prices@) == Err::<int, PoolError>(e),
{
    let r = global_debt_with(synths, prices, None);
    proof {
        assert(supplies_changed(synths@, None) =~= synths@);
    }
    r
}

/// `synths` with the circulating supply of one asset replaced.
pub open spec fn supplies_changed(synths: Seq<SyntheticToken>, change: Option<(usize, u128)>) -> Seq<SyntheticToken> {
    match change {
        Some((k, v)) => if k < synths.len() {
            synths.update(k as int, with_supply(synths[k as int], v))
        } else {
            synths
        },
        None => synths,
    }
}

/// The global debt of `synths` with the supply of one asset replaced by `change`.
fn global_debt_with(
    synths: &Vec<SyntheticToken>,
    prices: &Vec<(u64, u128)>,
    change: Option<(usize, u128)>,
) -> (r: Result<u128, PoolError>)
    ensures
        r matches Ok(d) ==> global_debt_spec(supplies_changed(synths@, change), prices@) == Ok::<int, PoolError>(d as int),
        r matches Err(e) ==> global_debt_spec(supplies_changed(synths@, change), prices@) == Err::<int, PoolError>(e),
{
    let ghost s2 = supplies_changed(synths@, change);
    let mut total: u128 = 0;
    let mut i: usize = 0;
    while i < synths.len()
        invariant
            0 <= i <= synths.len(),
            s2 == supplies_changed(synths@, change),
            s2.len() == synths@.len(),
            debt_prefix(s2, prices@, i as int) == Ok::<int, PoolError>(total as int),
        decreases synths.len() - i,
    {
        let synth = &synths[i];
        let supply = match change {
            Some((k, v)) => if k == i { v } else { synth.circulating_supply },
            None => synth.circulating_supply,
        };
        assert(s2[i as int].asset_address == synth.asset_address);
        assert(s2[i as int].circulating_supply == supply);
        let price = match lookup_price(prices, synth.asset_address) {
            Ok(p) => p,
            Err(e) => {
                proof { lemma_debt_prefix_err(s2, prices@, i as int + 1, e); }
                return Err(e);
            },
        };
        let v = match checked_mul(price, supply) {
            Some(v) => v,
            None => {
                proof { lemma_debt_prefix_err(s2, prices@, i as int + 1, PoolError::Overflow); }
                return Err(PoolError::Overflow);
            },
        };
        if v > u128::MAX - total {
            proof { lemma_debt_prefix_err(s2, prices@, i as int + 1, PoolError::Overflow); }
            return Err(PoolError::Overflow);
        }
        total = total + v;
        i = i + 1;
    }
    Ok(total)
}

/// A failure in a prefix is the failure of the whole sum.
proof fn lemma_debt_prefix_err(synths: Seq<SyntheticToken>, prices: Seq<(u64, u128)>, n: int, e: PoolError)
    requires
        0 <= n <= synths.len(),
        debt_prefix(synths, prices, n) == Err::<int, PoolError>(e),
    ensures
        global_debt_spec(synths, prices) == Err::<int, PoolError>(e),
    decreases synths.len() - n,
{
    if n < synths.len() {
        lemma_debt_prefix_err(synths, prices, n + 1, e);
    }
}

/// The accounts after a deposit of `amount` by `user_id`, or `None` where the
/// balance would overflow.
pub open spec fn stake_spec(p: SyntheticPool, user_id: u64, amount: u128) -> Option<Seq<(u64, User)>> {
    if has_user(p.users@, user_id) {
        let i = user_index(p.users@, user_id);
        let u = p.users@[i].1;
        if u.snx + amount > u128::MAX {
            None
        } else {
            Some(p.users@.update(i, (user_id, User { snx: (u.snx + amount) as u128, ..u })))
        }
    } else {
        Some(p.users@.push((user_id, User { snx: amount, global_debt_share: 0 })))
    }
}

/// The outcome of withdrawing `amount` of collateral from the account of
/// `user_id`: the amount withdrawn, or why it was refused.
pub open spec fn unstake_spec(p: SyntheticPool, user_id: u64, amount: u128, prices: Seq<(u64, u128)>) -> Result<u128, PoolError> {
    if !has_user(p.users@, user_id) {
        Err(PoolError::AccountNotFound)
    } else {
        let u = p.users@[user_index(p.users@, user_id)].1;
        if amount > u.snx {
            Err(PoolError::InsufficientCollateral)
        } else if p.total_share_supply == 0 || u.global_debt_share == 0 {
            Ok(amount)
        } else {
            match price_of(prices, p.snx_resource_address) {
                None => Err(PoolError::PriceUnavailable),
                Some(snx_price) => match global_debt_spec(p.synthetics@, prices) {
                    Err(e) => Err(e),
                    Ok(debt) => match collateral_check_spec(
                        u.snx - amount,
                        u.global_debt_share as int,
                        snx_price as int,
                        debt,
                        p.total_share_supply as int,
                        p.collateralization_threshold as int,
                    ) {
                        Err(e) => Err(e),
                        Ok(_) => Ok(amount),
                    },
                },
            }
        }
    }
}

/// The outcome of minting `amount` of the asset `symbol` for `user_id`: the
/// debt shares issued, or why it was refused.
pub open spec fn mint_spec(
    p: SyntheticPool,
    user_id: u64,
    amount: u128,
    symbol: Seq<char>,
    prices: Seq<(u64, u128)>,
) -> Result<u128, PoolError> {
    if !has_user(p.users@, user_id) {
        Err(PoolError::AccountNotFound)
    } else if !has_symbol(p.synthetics@, symbol) {
        Err(PoolError::UnknownAsset)
    } else {
        let u = p.users@[user_index(p.users@, user_id)].1;
        let si = symbol_index(p.synthetics@, symbol);
        let t = p.synthetics@[si];
        match global_debt_spec(p.synthetics@, prices) {
            Err(e) => Err(e),
            Ok(debt) => match price_of(prices, t.asset_address) {
                None => Err(PoolError::PriceUnavailable),
                Some(price) => if !fits(mul_spec(price as int, amount as int)) {
                    Err(PoolError::Overflow)
                } else {
                    match issue_spec(mul_spec(price as int, amount as int), p.total_share_supply as int, debt) {
                        Err(e) => Err(e),
                        Ok(shares) => if !fits(p.total_share_supply + shares) || !fits(t.circulating_supply + amount) {
                            Err(PoolError::Overflow)
                        } else {
                            match global_debt_spec(
                                p.synthetics@.update(si, with_supply(t, (t.circulating_supply + amount) as u128)),
                                prices,
                            ) {
                                Err(e) => Err(e),
                                Ok(new_debt) => match price_of(prices, p.snx_resource_address) {
                                    None => Err(PoolError::PriceUnavailable),
                                    Some(snx_price) => match collateral_check_spec(
                                        u.snx as int,
                                        u.global_debt_share + shares,
                                        snx_price as int,
                                        new_debt,
                                        p.total_share_supply + shares,
                                        p.collateralization_threshold as int,
                                    ) {
                                        Err(e) => Err(e),
                                        Ok(_) => Ok(shares as u128),
                                    },
                                },
                            }
                        },
                    }
                },
            },
        }
    }
}

/// `post` is `pre` after `user_id` minted `amount` of the asset `symbol` for
/// `shares` debt shares.
pub open spec fn minted(
    pre: SyntheticPool,
    post: SyntheticPool,
    user_id: u64,
    amount: u128,
    symbol: Seq<char>,
    shares: u128,
) -> bool {
    let ui = user_index(pre.users@, user_id);
    let si = symbol_index(pre.synthetics@, symbol);
    let u = pre.users@[ui].1;
    let t = pre.synthetics@[si];
    &&& post.users@ == pre.users@.update(
        ui,
        (user_id, User { global_debt_share: (u.global_debt_share + shares) as u128, ..u }),
    )
    &&& post.synthetics@ == pre.synthetics@.update(si, with_supply(t, (t.circulating_supply + amount) as u128))
    &&& post.total_share_supply == pre.total_share_supply + shares
    &&& post.collateralization_threshold == pre.collateralization_threshold
    &&& post.snx_resource_address == pre.snx_resource_address
    &&& post.usd_resource_address == pre.usd_resource_address
    &&& post.oracle_address == pre.oracle_address
}

/// The outcome of burning `amount` of the token `token` for `user_id`: the
/// debt shares withdrawn, or why it was refused.
pub open spec fn burn_spec(
    p: SyntheticPool,
    user_id: u64,
    token: u64,
    amount: u128,
    prices: Seq<(u64, u128)>,
) -> Result<u128, PoolError> {
    if !has_user(p.users@, user_id) {
        Err(PoolError::AccountNotFound)
    } else if !has_token(p.synthetics@, token) {
        Err(PoolError::UnknownAsset)
    } else {
        let u = p.users@[user_index(p.users@, user_id)].1;
        let t = p.synthetics@[token_index(p.synthetics@, token)];
        match global_debt_spec(p.synthetics@, prices) {
            Err(e) => Err(e),
            Ok(debt) => match price_of(prices, t.asset_address) {
                None => Err(PoolError::PriceUnavailable),
                Some(price) => if !fits(mul_spec(price as int, amount as int)) {
                    Err(PoolError::Overflow)
                } else {
                    match retire_spec(mul_spec(price as int, amount as int), p.total_share_supply as int, debt) {
                        Err(e) => Err(e),
                        Ok(shares) => if shares > u.global_debt_share {
                            Err(PoolError::InsufficientShareBalance)
                        } else if amount > t.circulating_supply {
                            Err(PoolError::InsufficientSupply)
                        } else {
                            Ok(shares as u128)
                        },
                    }
                },
            },
        }
    }
}

/// `post` is `pre` after `user_id` burnt `amount` of the token `token` for
/// `shares` debt shares.
pub open spec fn burned(pre: SyntheticPool, post: SyntheticPool, user_id: u64, token: u64, amount: u128, shares: u128) -> bool {
    let ui = user_index(pre.users@, user_id);
    let si = token_index(pre.synthetics@, token);
    let u = pre.users@[ui].1;
    let t = pre.synthetics@[si];
    &&& post.users@ == pre.users@.update(
        ui,
        (user_id, User { global_debt_share: (u.global_debt_share - shares) as u128, ..u }),
    )
    &&& post.synthetics@ == pre.synthetics@.update(si, with_supply(t, (t.circulating_supply - amount) as u128))
    &&& post.total_share_supply == pre.total_share_supply - shares
    &&& post.collateralization_threshold == pre.collateralization_threshold
    &&& post.snx_resource_address == pre.snx_resource_address
    &&& post.usd_resource_address == pre.usd_resource_address
    &&& post.oracle_address == pre.oracle_address
}

/// What an account holds and owes, with the figures its debt is computed from.
#[derive(Clone, Copy, Debug, PartialEq, Eq, Structural)]
pub struct UserSummary {
    pub snx_balance: u128,
    pub snx_price: u128,
    pub global_debt: u128,
    pub debt_shares: u128,
    pub total_share_supply: u128,
}

/// The pool: its settings, the collateral accounts, the registered assets and
/// the total supply of debt shares.
#[derive(Debug)]
pub struct SyntheticPool {
    /// The address of the price feed.
    pub oracle_address: u64,
    /// The collateralization ratio every indebted account has to keep.
    pub collateralization_threshold: u128,
    /// The collateral asset.
    pub snx_resource_address: u64,
    /// The unit of account that prices are quoted in.
    pub usd_resource_address: u64,
    /// Collateral accounts, keyed by user address.
    pub users: Vec<(u64, User)>,
    /// Registered synthetic assets.
    pub synthetics: Vec<SyntheticToken>,
    /// Debt shares in existence.
    pub total_share_supply: u128,
}

impl SyntheticPool {
    /// Accounts have distinct keys, assets distinct symbols and tokens, and the
    /// share supply is the sum of the accounts' share balances.
    pub open spec fn wf(&self) -> bool {
        &&& forall|i: int, j: int|
            0 <= i < self.users@.len() && 0 <= j < self.users@.len() && i != j
                ==> #[trigger] self.users@[i].0 != #[trigger] self.users@[j].0
        &&& forall|i: int, j: int|
            0 <= i < self.synthetics@.len() && 0 <= j < self.synthetics@.len() && i != j
                ==> #[trigger] self.synthetics@[i].asset_symbol@ != #[trigger] self.synthetics@[j].asset_symbol@
        &&& forall|i: int, j: int|
            0 <= i < self.synthetics@.len() && 0 <= j < self.synthetics@.len() && i != j
                ==> #[trigger] self.synthetics@[i].token_resource_address
                    != #[trigger] self.synthetics@[j].token_resource_address
        &&& self.total_share_supply == share_sum(self.users@)
    }

    /// A pool with no accounts, no assets and no shares.
    pub fn instantiate_pool(
        oracle_address: u64,
        snx_token_address: u64,
        usd_token_address: u64,
        collateralization_threshold: u128,
    ) -> (r: SyntheticPool)
        ensures
            r.wf(),
            r.oracle_address == oracle_address,
            r.snx_resource_address == snx_token_address,
            r.usd_resource_address == usd_token_address,
            r.collateralization_threshold == collateralization_threshold,
            r.users@.len() == 0,
            r.synthetics@.len() == 0,
            r.total_share_supply == 0,
    {
        SyntheticPool {
            oracle_address,
            collateralization_threshold,
            snx_resource_address: snx_token_address,
            usd_resource_address: usd_token_address,
            users: Vec::new(),
            synthetics: Vec::new(),
            total_share_supply: 0,
        }
    }

    /// The position of the account of `user_id`, if it has one.
    pub fn find_user(&self, user_id: u64) -> (r: Option<usize>)
        requires
            self.wf(),
        ensures
            r.is_some() == has_user(self.users@, user_id),
            r matches Some(i) ==> i < self.users@.len() && i == user_index(self.users@, user_id)
                && self.users@[i as int].0 == user_id,
    {
        let mut i: usize = 0;
        while i < self.users.len()
            invariant
                self.wf(),
                0 <= i <= self.users@.len(),
                forall|j: int| 0 <= j < i ==> self.users@[j].0 != user_id,
            decreases self.users@.len() - i,
        {
            if self.users[i].0 == user_id {
                proof {
                    assert(has_user(self.users@, user_id));
                    let k = user_index(self.users@, user_id);
                    assert(0 <= k < self.users@.len() && self.users@[k].0 == user_id);
                    if k != i as int {
                        assert(self.users@[k].0 != self.users@[i as int].0);
                    }
                }
                return Some(i);
            }
            i = i + 1;
        }
        None
    }

    /// The position of the asset registered under `symbol`, if any.
    pub fn find_symbol(&self, symbol: &String) -> (r: Option<usize>)
        requires
            self.wf(),
        ensures
            r.is_some() == has_symbol(self.synthetics@, symbol@),
            r matches Some(i) ==> i < self.synthetics@.len() && i == symbol_index(self.synthetics@, symbol@)
                && self.synthetics@[i as int].asset_symbol@ == symbol@,
    {
        let mut i: usize = 0;
        while i < self.synthetics.len()
            invariant
                self.wf(),
                0 <= i <= self.synthetics@.len(),
                forall|j: int| 0 <= j < i ==> self.synthetics@[j].asset_symbol@ != symbol@,
            decreases self.synthetics@.len() - i,
        {
            if self.synthetics[i].asset_symbol == *symbol {
                proof {
                    assert(has_symbol(self.synthetics@, symbol@));
                    let k = symbol_index(self.synthetics@, symbol@);
                    assert(0 <= k < self.synthetics@.len() && self.synthetics@[k].asset_symbol@ == symbol@);
                    if k != i as int {
                        assert(self.synthetics@[k].asset_symbol@ != self.synthetics@[i as int].asset_symbol@);
                    }
                }
                return Some(i);
            }
            i = i + 1;
        }
        None
    }

    /// The position of the asset issued as the token `token`, if any.
    pub fn find_token(&self, token: u64) -> (r: Option<usize>)
        requires
            self.wf(),
        ensures
            r.is_some() == has_token(self.synthetics@, token),
            r matches Some(i) ==> i < self.synthetics@.len() && i == token_index(self.synthetics@, token)
                && self.synthetics@[i as int].token_resource_address == token,
    {
        let mut i: usize = 0;
        while i < self.synthetics.len()
            invariant
                self.wf(),
                0 <= i <= self.synthetics@.len(),
                forall|j: int| 0 <= j < i ==> self.synthetics@[j].token_resource_address != token,
            decreases self.synthetics@.len() - i,
        {
            if self.synthetics[i].token_resource_address == token {
                proof {
                    assert(has_token(self.synthetics@, token));
                    let k = token_index(self.synthetics@, token);
                    assert(0 <= k < self.synthetics@.len() && self.synthetics@[k].token_resource_address == token);
                    if k != i as int {
                        assert(self.synthetics@[k].token_resource_address != self.synthetics@[i as int].token_resource_address);
                    }
                }
                return Some(i);
            }
            i = i + 1;
        }
        None
    }

    /// The price of `asset_address` in the unit of account.
    pub fn get_asset_price(&self, asset_address: u64, prices: &Vec<(u64, u128)>) -> (r: Result<u128, PoolError>)
        ensures
            r == (match price_of(prices@, asset_address) {
                Some(p) => Ok::<u128, PoolError>(p),
                None => Err(PoolError::PriceUnavailable),
            }),
    {
        lookup_price(prices, asset_address)
    }

    /// The price of the collateral asset in the unit of account.
    pub fn get_snx_price(&self, prices: &Vec<(u64, u128)>) -> (r: Result<u128, PoolError>)
        ensures
            r == (match price_of(prices@, self.snx_resource_address) {
                Some(p) => Ok::<u128, PoolError>(p),
                None => Err(PoolError::PriceUnavailable),
            }),
    {
        self.get_asset_price(self.snx_resource_address, prices)
    }

    /// The value of every registered asset in circulation.
    pub fn get_total_global_debt(&self, prices: &Vec<(u64, u128)>) -> (r: Result<u128, PoolError>)
        ensures
            r matches Ok(d) ==> global_debt_spec(self.synthetics@, prices@) == Ok::<int, PoolError>(d as int),
            r matches Err(e) ==> global_debt_spec(self.synthetics@, prices@) == Err::<int, PoolError>(e),
    {
        global_debt_of(&self.synthetics, prices)
    }

    /// Registers a synthetic asset under `asset_symbol`, following the price of
    /// `asset_address` and issued as the new token `token_resource_address`.
    pub fn add_synthetic_token(
        &mut self,
        asset_symbol: String,
        asset_address: u64,
        token_resource_address: u64,
    ) -> (r: Result<u64, PoolError>)
        requires
            old(self).wf(),
        ensures
            final(self).wf(),
            r is Err <==> has_symbol(old(self).synthetics@, asset_symbol@)
                || has_token(old(self).synthetics@, token_resource_address),
            r is Err ==> r == Err::<u64, PoolError>(PoolError::DuplicateAsset) && *final(self) == *old(self),
            r is Ok ==> r == Ok::<u64, PoolError>(token_resource_address)
                && final(self).synthetics@ == old(self).synthetics@.push(
                    (SyntheticToken {
                        asset_symbol,
                        asset_address,
                        token_resource_address,
                        circulating_supply: 0,
                    }),
                )
                && final(self).users == old(self).users
                && final(self).total_share_supply == old(self).total_share_supply
                && final(self).collateralization_threshold == old(self).collateralization_threshold
                && final(self).snx_resource_address == old(self).snx_resource_address
                && final(self).usd_resource_address == old(self).usd_resource_address
                && final(self).oracle_address == old(self).oracle_address,
    {
        if self.find_symbol(&asset_symbol).is_some() || self.find_token(token_resource_address).is_some() {
            return Err(PoolError::DuplicateAsset);
        }
        let token = SyntheticToken::new(asset_symbol, asset_address, token_resource_address);
        self.synthetics.push(token);
        Ok(token_resource_address)
    }

    /// Deposits `amount` of collateral into the account of `user_id`, which is
    /// opened on its first deposit.
    pub fn stake(&mut self, user_id: u64, amount: u128) -> (r: Result<(), PoolError>)
        requires
            old(self).wf(),
        ensures
            final(self).wf(),
            stake_spec(*old(self), user_id, amount) matches Some(users) ==> r is Ok
                && final(self).users@ == users && final(self).synthetics == old(self).synthetics
                && final(self).total_share_supply == old(self).total_share_supply
                && final(self).collateralization_threshold == old(self).collateralization_threshold
                && final(self).snx_resource_address == old(self).snx_resource_address
                && final(self).usd_resource_address == old(self).usd_resource_address
                && final(self).oracle_address == old(self).oracle_address,
            stake_spec(*old(self), user_id, amount) is None ==> r == Err::<(), PoolError>(PoolError::Overflow)
                && *final(self) == *old(self),
    {
        match self.find_user(user_id) {
            Some(i) => {
                let u = self.users[i].1;
                if u.snx > u128::MAX - amount {
                    return Err(PoolError::Overflow);
                }
                let nu = User { snx: u.snx + amount, global_debt_share: u.global_debt_share };
                proof { lemma_share_sum_update(self.users@, i as int, (user_id, nu)); }
                self.users.set(i, (user_id, nu));
                proof { self.lemma_unique_users_update(*old(self), i as int, user_id); }
                Ok(())
            },
            None => {
                let nu = User { snx: amount, global_debt_share: 0 };
                proof { lemma_share_sum_push(self.users@, (user_id, nu)); }
                self.users.push((user_id, nu));
                Ok(())
            },
        }
    }

    /// Replacing an account under its own key keeps the keys distinct.
    proof fn lemma_unique_users_update(&self, pre: SyntheticPool, i: int, id: u64)
        requires
            pre.wf(),
            0 <= i < pre.users@.len(),
            pre.users@[i].0 == id,
            self.users@ == pre.users@.update(i, (id, self.users@[i].1)),
        ensures
            forall|a: int, b: int|
                0 <= a < self.users@.len() && 0 <= b < self.users@.len() && a != b
                    ==> #[trigger] self.users@[a].0 != #[trigger] self.users@[b].0,
    {
        assert forall|a: int, b: int|
            0 <= a < self.users@.len() && 0 <= b < self.users@.len() && a != b
                implies #[trigger] self.users@[a].0 != #[trigger] self.users@[b].0 by {
            assert(self.users@[a].0 == pre.users@[a].0);
            assert(self.users@[b].0 == pre.users@[b].0);
        }
    }

    /// Withdraws `amount` of collateral from the account of `user_id` and
    /// returns it; an indebted account must stay collateralized afterwards.
    pub fn unstake(&mut self, user_id: u64, amount: u128, prices: &Vec<(u64, u128)>) -> (r: Result<u128, PoolError>)
        requires
            old(self).wf(),
        ensures
            final(self).wf(),
            r == unstake_spec(*old(self), user_id, amount, prices@),
            r is Err ==> *final(self) == *old(self),
            r is Ok ==> final(self).users@ == old(self).users@.update(
                user_index(old(self).users@, user_id),
                (user_id, (User {
                    snx: (old(self).users@[user_index(old(self).users@, user_id)].1.snx - amount) as u128,
                    ..old(self).users@[user_index(old(self).users@, user_id)].1
                })),
            ) && final(self).synthetics == old(self).synthetics
                && final(self).total_share_supply == old(self).total_share_supply
                && final(self).collateralization_threshold == old(self).collateralization_threshold
                && final(self).snx_resource_address == old(self).snx_resource_address
                && final(self).usd_resource_address == old(self).usd_resource_address
                && final(self).oracle_address == old(self).oracle_address,
    {
        let i = match self.find_user(user_id) {
            Some(i) => i,
            None => return Err(PoolError::AccountNotFound),
        };
        let u = self.users[i].1;
        if amount > u.snx {
            return Err(PoolError::InsufficientCollateral);
        }
        let nu = User { snx: u.snx - amount, global_debt_share: u.global_debt_share };
        if self.total_share_supply != 0 && u.global_debt_share != 0 {
            let snx_price = self.get_snx_price(prices)?;
            let global_debt = self.get_total_global_debt(prices)?;
            nu.check_collateralization_ratio(
                snx_price,
                global_debt,
                self.total_share_supply,
                self.collateralization_threshold,
            )?;
        }
        proof { lemma_share_sum_update(self.users@, i as int, (user_id, nu)); }
        self.users.set(i, (user_id, nu));
        proof { self.lemma_unique_users_update(*old(self), i as int, user_id); }
        Ok(amount)
    }

    /// Mints `amount` of the synthetic asset `symbol` against the account of
    /// `user_id` and returns the debt shares issued for it; the account must
    /// stay collateralized afterwards.
    pub fn mint(&mut self, user_id: u64, amount: u128, symbol: &String, prices: &Vec<(u64, u128)>) -> (r: Result<u128, PoolError>)
        requires
            old(self).wf(),
        ensures
            final(self).wf(),
            r == mint_spec(*old(self), user_id, amount, symbol@, prices@),
            r is Err ==> *final(self) == *old(self),
            r matches Ok(shares) ==> minted(*old(self), *final(self), user_id, amount, symbol@, shares),
    {
        let ui = match self.find_user(user_id) {
            Some(i) => i,
            None => return Err(PoolError::AccountNotFound),
        };
        let si = match self.find_symbol(symbol) {
            Some(i) => i,
            None => return Err(PoolError::UnknownAsset),
        };
        let global_debt = self.get_total_global_debt(prices)?;
        let price = self.get_asset_price(self.synthetics[si].asset_address, prices)?;
        let new_debt = match checked_mul(price, amount) {
            Some(v) => v,
            None => return Err(PoolError::Overflow),
        };
        let shares = issue_shares(new_debt, self.total_share_supply, global_debt)?;
        if shares > u128::MAX - self.total_share_supply {
            return Err(PoolError::Overflow);
        }
        let supply = self.synthetics[si].circulating_supply;
        if amount > u128::MAX - supply {
            return Err(PoolError::Overflow);
        }
        let new_global_debt = global_debt_with(&self.synthetics, prices, Some((si, supply + amount)))?;
        let snx_price = self.get_snx_price(prices)?;
        let u = self.users[ui].1;
        proof { lemma_share_le_sum(self.users@, ui as int); }
        let nu = User { snx: u.snx, global_debt_share: u.global_debt_share + shares };
        let new_supply = self.total_share_supply + shares;
        nu.check_collateralization_ratio(snx_price, new_global_debt, new_supply, self.collateralization_threshold)?;
        let t = self.synthetics[si].with_circulating_supply(supply + amount);
        self.synthetics.set(si, t);
        proof { lemma_share_sum_update(self.users@, ui as int, (user_id, nu)); }
        self.users.set(ui, (user_id, nu));
        self.total_share_supply = new_supply;
        proof {
            self.lemma_unique_users_update(*old(self), ui as int, user_id);
            assert forall|a: int, b: int|
                0 <= a < self.synthetics@.len() && 0 <= b < self.synthetics@.len() && a != b
                    implies #[trigger] self.synthetics@[a].asset_symbol@ != #[trigger] self.synthetics@[b].asset_symbol@
                    && self.synthetics@[a].token_resource_address != self.synthetics@[b].token_resource_address by {
                assert(self.synthetics@[a].asset_symbol == old(self).synthetics@[a].asset_symbol);
                assert(self.synthetics@[b].asset_symbol == old(self).synthetics@[b].asset_symbol);
                assert(old(self).synthetics@[a].asset_symbol@ != old(self).synthetics@[b].asset_symbol@);
                assert(old(self).synthetics@[a].token_resource_address != old(self).synthetics@[b].token_resource_address);
            }
        }
        Ok(shares)
    }

    /// Burns `amount` of the synthetic token `token` for `user_id` and
    /// withdraws the debt shares that the burnt value stood for.
    pub fn burn(&mut self, user_id: u64, token: u64, amount: u128, prices: &Vec<(u64, u128)>) -> (r: Result<u128, PoolError>)
        requires
            old(self).wf(),
        ensures
            final(self).wf(),
            r == burn_spec(*old(self), user_id, token, amount, prices@),
            r is Err ==> *final(self) == *old(self),
            r matches Ok(shares) ==> burned(*old(self), *final(self), user_id, token, amount, shares),
    {
        let ui = match self.find_user(user_id) {
            Some(i) => i,
            None => return Err(PoolError::AccountNotFound),
        };
        let si = match self.find_token(token) {
            Some(i) => i,
            None => return Err(PoolError::UnknownAsset),
        };
        let global_debt = self.get_total_global_debt(prices)?;
        let price = self.get_asset_price(self.synthetics[si].asset_address, prices)?;
        let debt_to_remove = match checked_mul(price, amount) {
            Some(v) => v,
            None => return Err(PoolError::Overflow),
        };
        let shares = retire_shares(debt_to_remove, self.total_share_supply, global_debt)?;
        let u = self.users[ui].1;
        if shares > u.global_debt_share {
            return Err(PoolError::InsufficientShareBalance);
        }
        let supply = self.synthetics[si].circulating_supply;
        if amount > supply {
            return Err(PoolError::InsufficientSupply);
        }
        proof { lemma_share_le_sum(self.users@, ui as int); }
        let nu = User { snx: u.snx, global_debt_share: u.global_debt_share - shares };
        let t = self.synthetics[si].with_circulating_supply(supply - amount);
        self.synthetics.set(si, t);
        proof { lemma_share_sum_update(self.users@, ui as int, (user_id, nu)); }
        self.users.set(ui, (user_id, nu));
        self.total_share_supply = self.total_share_supply - shares;
        proof {
            self.lemma_unique_users_update(*old(self), ui as int, user_id);
            assert forall|a: int, b: int|
                0 <= a < self.synthetics@.len() && 0 <= b < self.synthetics@.len() && a != b
                    implies #[trigger] self.synthetics@[a].asset_symbol@ != #[trigger] self.synthetics@[b].asset_symbol@
                    && self.synthetics@[a].token_resource_address != self.synthetics@[b].token_resource_address by {
                assert(self.synthetics@[a].asset_symbol == old(self).synthetics@[a].asset_symbol);
                assert(self.synthetics@[b].asset_symbol == old(self).synthetics@[b].asset_symbol);
                assert(old(self).synthetics@[a].asset_symbol@ != old(self).synthetics@[b].asset_symbol@);
                assert(old(self).synthetics@[a].token_resource_address != old(self).synthetics@[b].token_resource_address);
            }
        }
        Ok(shares)
    }

    /// The figures behind the account of `user_id`: its collateral, the
    /// collateral price, the global debt, its shares and the share supply.
    pub fn get_user_summary(&self, user_id: u64, prices: &Vec<(u64, u128)>) -> (r: Result<UserSummary, PoolError>)
        requires
            self.wf(),
        ensures
            !has_user(self.users@, user_id) ==> r == Err::<UserSummary, PoolError>(PoolError::AccountNotFound),
            has_user(self.users@, user_id) && price_of(prices@, self.snx_resource_address) is None
                ==> r == Err::<UserSummary, PoolError>(PoolError::PriceUnavailable),
            has_user(self.users@, user_id) && price_of(prices@, self.snx_resource_address) is Some ==> (
                match global_debt_spec(self.synthetics@, prices@) {
                    Err(e) => r == Err::<UserSummary, PoolError>(e),
                    Ok(d) => r matches Ok(sum) && sum.snx_balance == self.users@[user_index(self.users@, user_id)].1.snx
                        && sum.snx_price == price_of(prices@, self.snx_resource_address)->0
                        && sum.global_debt == d
                        && sum.debt_shares == self.users@[user_index(self.users@, user_id)].1.global_debt_share
                        && sum.total_share_supply == self.total_share_supply,
                }
            ),
    {
        let i = match self.find_user(user_id) {
            Some(i) => i,
            None => return Err(PoolError::AccountNotFound),
        };
        let u = self.users[i].1;
        let snx_price = self.get_snx_price(prices)?;
        let global_debt = self.get_total_global_debt(prices)?;
        Ok(UserSummary {
            snx_balance: u.snx,
            snx_price,
            global_debt,
            debt_shares: u.global_debt_share,
            total_share_supply: self.total_share_supply,
        })
    }
}

} // verus!
