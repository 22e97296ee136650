//! Properties of the ledger that hold across operations.
use crate::decimal::{div_spec, fits, mul_spec, ONE};
use crate::error::PoolError;
use crate::ledger::{
    debt_prefix, global_debt_spec, lemma_share_le_sum, has_symbol, has_token, has_user, issue_spec, price_of, share_sum,
    symbol_index, token_index, user_index, BOOTSTRAP_SHARES,
};
use crate::pool::{burn_spec, mint_spec, minted, unstake_spec, SyntheticPool};
use crate::token::{with_supply, SyntheticToken};
use crate::user::{collateral_check_spec, user_debt_spec};
use vstd::prelude::*;

verus! {

/// In every well-formed pool, the one that every operation leaves behind, the
/// share supply is the sum of all accounts' share balances.
pub proof fn lemma_supply_is_sum_of_balances(p: SyntheticPool)
    requires
        p.wf(),
    ensures
        p.total_share_supply == share_sum(p.users@),
{
}

/// The first mint against an empty share supply issues the fixed bootstrap
/// amount of shares, whatever value is minted.
pub proof fn lemma_bootstrap_mint(
    p: SyntheticPool,
    user_id: u64,
    amount: u128,
    symbol: Seq<char>,
    prices: Seq<(u64, u128)>,
)
    requires
        p.wf(),
        p.total_share_supply == 0,
    ensures
        mint_spec(p, user_id, amount, symbol, prices) matches Ok(shares) ==> shares == BOOTSTRAP_SHARES,
{
}

/// A mint of value `V` against `S` shares standing for global debt `D` issues
/// `V * S / D` shares.
pub proof fn lemma_mint_proportional(
    p: SyntheticPool,
    user_id: u64,
    amount: u128,
    symbol: Seq<char>,
    prices: Seq<(u64, u128)>,
)
    requires
        p.wf(),
        p.total_share_supply > 0,
        mint_spec(p, user_id, amount, symbol, prices) is Ok,
    ensures
        ({
            let t = p.synthetics@[symbol_index(p.synthetics@, symbol)];
            let v = mul_spec(price_of(prices, t.asset_address)->0 as int, amount as int);
            let d = global_debt_spec(p.synthetics@, prices)->Ok_0;
            &&& global_debt_spec(p.synthetics@, prices) is Ok
            &&& price_of(prices, t.asset_address) is Some
            &&& d > 0
            &&& issue_spec(v, p.total_share_supply as int, d) == Ok::<int, PoolError>(
                mint_spec(p, user_id, amount, symbol, prices)->Ok_0 as int,
            )
            &&& mint_spec(p, user_id, amount, symbol, prices)->Ok_0 as int
                == mul_spec(v, p.total_share_supply as int) * (ONE as int) / d
        }),
{
}

/// An indebted account whose debt value exceeds its collateral value divided
/// by the threshold fails the check with `Undercollateralized`.
pub proof fn lemma_solvency_gate(
    snx: int,
    shares: int,
    snx_price: int,
    global_debt: int,
    supply: int,
    threshold: int,
)
    requires
        supply > 0,
        shares > 0,
        fits(mul_spec(global_debt, shares)),
        fits(user_debt_spec(global_debt, shares, supply)),
        fits(mul_spec(snx, snx_price)),
        mul_spec(snx, snx_price) * (ONE as int) < threshold * user_debt_spec(global_debt, shares, supply),
    ensures
        collateral_check_spec(snx, shares, snx_price, global_debt, supply, threshold) == Err::<(), PoolError>(
            PoolError::Undercollateralized,
        ),
{
    if user_debt_spec(global_debt, shares, supply) == 0 {
        assert(threshold * 0 == 0) by (nonlinear_arith);
    }
}

/// A withdrawal after which an indebted account's debt value exceeds its
/// collateral value divided by the threshold is refused with
/// `Undercollateralized`.
pub proof fn lemma_unstake_solvency_gate(p: SyntheticPool, user_id: u64, amount: u128, prices: Seq<(u64, u128)>)
    requires
        p.wf(),
        has_user(p.users@, user_id),
        amount <= p.users@[user_index(p.users@, user_id)].1.snx,
        p.total_share_supply > 0,
        p.users@[user_index(p.users@, user_id)].1.global_debt_share > 0,
        price_of(prices, p.snx_resource_address) is Some,
        global_debt_spec(p.synthetics@, prices) is Ok,
        ({
            let u = p.users@[user_index(p.users@, user_id)].1;
            let d = global_debt_spec(p.synthetics@, prices)->Ok_0;
            let c = mul_spec(u.snx - amount, price_of(prices, p.snx_resource_address)->0 as int);
            &&& fits(mul_spec(d, u.global_debt_share as int))
            &&& fits(user_debt_spec(d, u.global_debt_share as int, p.total_share_supply as int))
            &&& fits(c)
            &&& c * (ONE as int) < p.collateralization_threshold * user_debt_spec(
                d,
                u.global_debt_share as int,
                p.total_share_supply as int,
            )
        }),
    ensures
        unstake_spec(p, user_id, amount, prices) == Err::<u128, PoolError>(PoolError::Undercollateralized),
{
    let u = p.users@[user_index(p.users@, user_id)].1;
    lemma_solvency_gate(
        u.snx - amount,
        u.global_debt_share as int,
        price_of(prices, p.snx_resource_address)->0 as int,
        global_debt_spec(p.synthetics@, prices)->Ok_0,
        p.total_share_supply as int,
        p.collateralization_threshold as int,
    );
}

/// An account without debt shares can withdraw all of its collateral at any
/// prices.
pub proof fn lemma_zero_debt_full_withdrawal(p: SyntheticPool, user_id: u64, prices: Seq<(u64, u128)>)
    requires
        p.wf(),
        has_user(p.users@, user_id),
        p.users@[user_index(p.users@, user_id)].1.global_debt_share == 0,
    ensures
        unstake_spec(p, user_id, p.users@[user_index(p.users@, user_id)].1.snx, prices) == Ok::<u128, PoolError>(
            p.users@[user_index(p.users@, user_id)].1.snx,
        ),
{
}

/// Truncating a sum loses no more than truncating its parts.
proof fn lemma_mul_spec_superadditive(p: int, a: int, b: int)
    requires
        p >= 0,
        a >= 0,
        b >= 0,
    ensures
        mul_spec(p, a + b) >= mul_spec(p, a) + mul_spec(p, b),
{
    let one = ONE as int;
    let x = p * a;
    let y = p * b;
    assert(p * (a + b) == x + y) by (nonlinear_arith)
        requires x == p * a, y == p * b;
    assert(x >= 0 && y >= 0) by (nonlinear_arith)
        requires p >= 0, a >= 0, b >= 0, x == p * a, y == p * b;
    assert((x + y) / one >= x / one + y / one) by (nonlinear_arith)
        requires x >= 0, y >= 0, one > 0;
}

/// With the share price not falling (new debt at least the old plus the
/// value issued for), issuing for the same value again yields no more shares,
/// provided the first product was exact.
proof fn lemma_reissue_not_more(v: int, s: int, d: int, d2: int)
    requires
        v >= 0,
        s > 0,
        d > 0,
        (v * s) % (ONE as int) == 0,
        d2 >= d + v,
    ensures
        ({
            let s1 = div_spec(mul_spec(v, s), d);
            &&& s1 >= 0
            &&& div_spec(mul_spec(v, s + s1), d2) <= s1
            &&& div_spec(mul_spec(s + s1, v), d2) <= s1
        }),
{
    let one = ONE as int;
    let b = v * s;
    assert(b >= 0) by (nonlinear_arith)
        requires v >= 0, s > 0, b == v * s;
    assert((b / one) * one == b) by (nonlinear_arith)
        requires b % one == 0, one > 0;
    let s1 = b / d;
    assert(div_spec(mul_spec(v, s), d) == s1);
    assert(s1 >= 0 && s1 * d <= b) by (nonlinear_arith)
        requires b >= 0, d > 0, s1 == b / d;
    let a = v * (s + s1);
    assert(v * (s + s1) == (s + s1) * v) by (nonlinear_arith);
    assert(a >= 0) by (nonlinear_arith)
        requires v >= 0, s > 0, s1 >= 0, a == v * (s + s1);
    // a * d <= b * d2
    assert(a * d == v * s * d + v * (s1 * d)) by (nonlinear_arith)
        requires a == v * (s + s1);
    assert(v * (s1 * d) <= v * b) by (nonlinear_arith)
        requires v >= 0, s1 * d <= b;
    assert(v * s * d + v * b == b * (d + v)) by (nonlinear_arith)
        requires b == v * s;
    assert(b * (d + v) <= b * d2) by (nonlinear_arith)
        requires b >= 0, d2 >= d + v;
    assert(a * d <= b * d2);
    let m = a / one;
    assert(m >= 0 && m * one <= a) by (nonlinear_arith)
        requires a >= 0, one > 0, m == a / one;
    let s2 = (m * one) / d2;
    assert(d2 > 0);
    assert(s2 * d2 <= m * one) by (nonlinear_arith)
        requires m >= 0, one > 0, d2 > 0, s2 == (m * one) / d2;
    assert(s2 * d2 * d <= b * d2) by (nonlinear_arith)
        requires s2 * d2 <= m * one, m * one <= a, a * d <= b * d2, d > 0;
    assert(s2 * d <= b) by (nonlinear_arith)
        requires s2 * d2 * d <= b * d2, d2 > 0;
    assert(s2 <= s1) by (nonlinear_arith)
        requires s2 * d <= b, d > 0, s1 == b / d;
}

/// After the bootstrap issue, issuing for a value no larger than the global
/// debt yields no more than the bootstrap amount.
proof fn lemma_reissue_after_bootstrap(v: int, d2: int)
    requires
        v >= 0,
        d2 >= v,
        d2 > 0,
    ensures
        div_spec(mul_spec(v, BOOTSTRAP_SHARES as int), d2) <= BOOTSTRAP_SHARES,
        div_spec(mul_spec(BOOTSTRAP_SHARES as int, v), d2) <= BOOTSTRAP_SHARES,
{
    let one = ONE as int;
    let b = BOOTSTRAP_SHARES as int;
    assert(b == 100 * one);
    assert(v * b == (100 * v) * one) by (nonlinear_arith)
        requires b == 100 * one;
    assert(b * v == v * b) by (nonlinear_arith);
    assert(((100 * v) * one) / one == 100 * v) by (nonlinear_arith)
        requires one > 0;
    let q = (100 * v * one) / d2;
    assert(q * d2 <= 100 * v * one) by (nonlinear_arith)
        requires d2 > 0, q == (100 * v * one) / d2, v >= 0, one > 0;
    assert(100 * v * one <= 100 * one * d2) by (nonlinear_arith)
        requires v <= d2, one > 0;
    assert(q <= b) by (nonlinear_arith)
        requires q * d2 <= 100 * v * one, 100 * v * one <= 100 * one * d2, d2 > 0, b == 100 * one;
}

/// Raising the supply of one asset raises every prefix sum of the debt by
/// at least the growth in that asset's value.
proof fn lemma_debt_grows(
    synths: Seq<SyntheticToken>,
    prices: Seq<(u64, u128)>,
    si: int,
    t2: SyntheticToken,
    n: int,
)
    requires
        0 <= si < synths.len(),
        t2.asset_address == synths[si].asset_address,
        t2.circulating_supply >= synths[si].circulating_supply,
        0 <= n <= synths.len(),
        debt_prefix(synths, prices, n) is Ok,
        debt_prefix(synths.update(si, t2), prices, n) is Ok,
    ensures
        n <= si ==> debt_prefix(synths.update(si, t2), prices, n) == debt_prefix(synths, prices, n),
        n > si ==> price_of(prices, t2.asset_address) is Some
            && debt_prefix(synths.update(si, t2), prices, n)->Ok_0 >= debt_prefix(synths, prices, n)->Ok_0
                + mul_spec(price_of(prices, t2.asset_address)->0 as int, t2.circulating_supply as int)
                - mul_spec(price_of(prices, t2.asset_address)->0 as int, synths[si].circulating_supply as int),
    decreases n,
{
    if n > 0 {
        lemma_debt_grows(synths, prices, si, t2, n - 1);
        if n - 1 == si {
            let p = price_of(prices, t2.asset_address)->0 as int;
            assert(p >= 0);
            let a = synths[si].circulating_supply as int;
            let c = t2.circulating_supply as int;
            assert(p * a <= p * c) by (nonlinear_arith)
                requires p >= 0, a <= c;
            assert(p * a / (ONE as int) <= p * c / (ONE as int)) by (nonlinear_arith)
                requires p * a <= p * c;
        }
    }
}

/// After a successful mint, the accounts and assets are found where they
/// were, and the global debt grew by at least the value minted.
proof fn lemma_after_mint(
    pre: SyntheticPool,
    post: SyntheticPool,
    user_id: u64,
    amount: u128,
    symbol: Seq<char>,
    prices: Seq<(u64, u128)>,
)
    requires
        pre.wf(),
        post.wf(),
        mint_spec(pre, user_id, amount, symbol, prices) is Ok,
        minted(pre, post, user_id, amount, symbol, mint_spec(pre, user_id, amount, symbol, prices)->Ok_0),
    ensures
        ({
            let ui = user_index(pre.users@, user_id);
            let si = symbol_index(pre.synthetics@, symbol);
            let t = pre.synthetics@[si];
            let price = price_of(prices, t.asset_address)->0 as int;
            &&& has_user(post.users@, user_id)
            &&& user_index(post.users@, user_id) == ui
            &&& has_symbol(post.synthetics@, symbol)
            &&& symbol_index(post.synthetics@, symbol) == si
            &&& has_token(post.synthetics@, t.token_resource_address)
            &&& token_index(post.synthetics@, t.token_resource_address) == si
            &&& post.synthetics@[si].asset_address == t.asset_address
            &&& price_of(prices, t.asset_address) is Some
            &&& global_debt_spec(pre.synthetics@, prices) is Ok
            &&& global_debt_spec(post.synthetics@, prices) is Ok
            &&& global_debt_spec(post.synthetics@, prices)->Ok_0
                >= global_debt_spec(pre.synthetics@, prices)->Ok_0 + mul_spec(price, amount as int)
        }),
{
    let ui = user_index(pre.users@, user_id);
    let si = symbol_index(pre.synthetics@, symbol);
    let t = pre.synthetics@[si];
    let t2 = with_supply(t, (t.circulating_supply + amount) as u128);
    assert(post.users@[ui].0 == user_id);
    assert(has_user(post.users@, user_id));
    let uj = user_index(post.users@, user_id);
    if uj != ui {
        assert(post.users@[uj].0 != post.users@[ui].0);
    }
    assert(post.synthetics@[si] == t2);
    assert(has_symbol(post.synthetics@, symbol));
    let sj = symbol_index(post.synthetics@, symbol);
    if sj != si {
        assert(post.synthetics@[sj].asset_symbol@ != post.synthetics@[si].asset_symbol@);
    }
    assert(has_token(post.synthetics@, t.token_resource_address));
    let tj = token_index(post.synthetics@, t.token_resource_address);
    if tj != si {
        assert(post.synthetics@[tj].token_resource_address != post.synthetics@[si].token_resource_address);
    }
    let price = price_of(prices, t.asset_address)->0 as int;
    lemma_debt_grows(pre.synthetics@, prices, si, t2, pre.synthetics@.len() as int);
    lemma_mul_spec_superadditive(price, t.circulating_supply as int, amount as int);
}

/// Right after a mint, minting the same value again issues no more shares
/// than the first mint did, provided the first product of value and supply
/// was exact.
pub proof fn lemma_second_mint_not_more(
    pre: SyntheticPool,
    post: SyntheticPool,
    user_id: u64,
    amount: u128,
    symbol: Seq<char>,
    prices: Seq<(u64, u128)>,
)
    requires
        pre.wf(),
        post.wf(),
        mint_spec(pre, user_id, amount, symbol, prices) is Ok,
        minted(pre, post, user_id, amount, symbol, mint_spec(pre, user_id, amount, symbol, prices)->Ok_0),
        (mul_spec(
            price_of(prices, pre.synthetics@[symbol_index(pre.synthetics@, symbol)].asset_address)->0 as int,
            amount as int,
        ) * pre.total_share_supply) % (ONE as int) == 0,
    ensures
        mint_spec(post, user_id, amount, symbol, prices) matches Ok(s2)
            ==> s2 <= mint_spec(pre, user_id, amount, symbol, prices)->Ok_0,
{
    lemma_after_mint(pre, post, user_id, amount, symbol, prices);
    let t = pre.synthetics@[symbol_index(pre.synthetics@, symbol)];
    let v = mul_spec(price_of(prices, t.asset_address)->0 as int, amount as int);
    let d = global_debt_spec(pre.synthetics@, prices)->Ok_0;
    let d2 = global_debt_spec(post.synthetics@, prices)->Ok_0;
    assert(v >= 0) by (nonlinear_arith)
        requires v == mul_spec(price_of(prices, t.asset_address)->0 as int, amount as int);
    if pre.total_share_supply == 0 {
        if d2 > 0 {
            lemma_reissue_after_bootstrap(v, d2);
        }
    } else {
        lemma_reissue_not_more(v, pre.total_share_supply as int, d, d2);
    }
}

/// Right after a mint, burning the amount just minted withdraws no more
/// shares than the mint issued, so the account ends with at least its
/// earlier share balance; this holds where the mint's product of value and
/// supply was exact.
pub proof fn lemma_burn_after_mint_not_more(
    pre: SyntheticPool,
    post: SyntheticPool,
    user_id: u64,
    amount: u128,
    symbol: Seq<char>,
    prices: Seq<(u64, u128)>,
)
    requires
        pre.wf(),
        post.wf(),
        mint_spec(pre, user_id, amount, symbol, prices) is Ok,
        minted(pre, post, user_id, amount, symbol, mint_spec(pre, user_id, amount, symbol, prices)->Ok_0),
        (mul_spec(
            price_of(prices, pre.synthetics@[symbol_index(pre.synthetics@, symbol)].asset_address)->0 as int,
            amount as int,
        ) * pre.total_share_supply) % (ONE as int) == 0,
    ensures
        burn_spec(
            post,
            user_id,
            pre.synthetics@[symbol_index(pre.synthetics@, symbol)].token_resource_address,
            amount,
            prices,
        ) matches Ok(burnt) ==> burnt <= mint_spec(pre, user_id, amount, symbol, prices)->Ok_0,
{
    lemma_after_mint(pre, post, user_id, amount, symbol, prices);
    let t = pre.synthetics@[symbol_index(pre.synthetics@, symbol)];
    let v = mul_spec(price_of(prices, t.asset_address)->0 as int, amount as int);
    let d = global_debt_spec(pre.synthetics@, prices)->Ok_0;
    let d2 = global_debt_spec(post.synthetics@, prices)->Ok_0;
    assert(v >= 0) by (nonlinear_arith)
        requires v == mul_spec(price_of(prices, t.asset_address)->0 as int, amount as int);
    if pre.total_share_supply == 0 {
        if d2 > 0 {
            lemma_reissue_after_bootstrap(v, d2);
        }
    } else {
        lemma_reissue_not_more(v, pre.total_share_supply as int, d, d2);
    }
}

/// A successful mint leaves the minting account collateralized: its debt
/// value is zero or at most its collateral value divided by the threshold.
pub proof fn lemma_mint_keeps_solvency(
    pre: SyntheticPool,
    post: SyntheticPool,
    user_id: u64,
    amount: u128,
    symbol: Seq<char>,
    prices: Seq<(u64, u128)>,
)
    requires
        pre.wf(),
        post.wf(),
        mint_spec(pre, user_id, amount, symbol, prices) is Ok,
        minted(pre, post, user_id, amount, symbol, mint_spec(pre, user_id, amount, symbol, prices)->Ok_0),
    ensures
        ({
            let u = post.users@[user_index(post.users@, user_id)].1;
            let d = global_debt_spec(post.synthetics@, prices)->Ok_0;
            let debt = user_debt_spec(d, u.global_debt_share as int, post.total_share_supply as int);
            &&& has_user(post.users@, user_id)
            &&& global_debt_spec(post.synthetics@, prices) is Ok
            &&& price_of(prices, post.snx_resource_address) is Some
            &&& post.total_share_supply > 0
            &&& debt == 0 || mul_spec(u.snx as int, price_of(prices, post.snx_resource_address)->0 as int)
                * (ONE as int) >= post.collateralization_threshold * debt
        }),
{
    lemma_after_mint(pre, post, user_id, amount, symbol, prices);
    let ui = user_index(pre.users@, user_id);
    let si = symbol_index(pre.synthetics@, symbol);
    let t = pre.synthetics@[si];
    let shares = mint_spec(pre, user_id, amount, symbol, prices)->Ok_0;
    lemma_share_le_sum(pre.users@, ui);
    let u = post.users@[user_index(post.users@, user_id)].1;
    assert(u.snx == pre.users@[ui].1.snx);
    assert(u.global_debt_share == pre.users@[ui].1.global_debt_share + shares);
    assert(post.synthetics@ == pre.synthetics@.update(si, with_supply(t, (t.circulating_supply + amount) as u128)));
    let d = global_debt_spec(post.synthetics@, prices)->Ok_0;
    assert(collateral_check_spec(
        u.snx as int,
        u.global_debt_share as int,
        price_of(prices, post.snx_resource_address)->0 as int,
        d,
        post.total_share_supply as int,
        post.collateralization_threshold as int,
    ) is Ok);
    assert(mul_spec(d, 0) == 0) by (nonlinear_arith);
    assert(div_spec(0, post.total_share_supply as int) == 0) by (nonlinear_arith)
        requires post.total_share_supply > 0;
}

} // verus!
