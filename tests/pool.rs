use synthetics::{
    global_debt_of, issue_shares, lookup_price, retire_shares, PoolError, SyntheticPool, SyntheticToken, User,
    BOOTSTRAP_SHARES, ONE,
};

const ORACLE: u64 = 1;
const SNX: u64 = 10;
const USD: u64 = 11;
const GOLD: u64 = 20;
const SGOLD: u64 = 21;
const OIL: u64 = 30;
const SOIL: u64 = 31;
const ALICE: u64 = 100;
const BOB: u64 = 101;

fn threshold() -> u128 {
    3 * ONE / 2
}

fn pool_with_gold() -> SyntheticPool {
    let mut pool = SyntheticPool::instantiate_pool(ORACLE, SNX, USD, threshold());
    assert_eq!(pool.add_synthetic_token("GOLD".to_string(), GOLD, SGOLD), Ok(SGOLD));
    pool
}

fn prices(snx: u128, gold: u128) -> Vec<(u64, u128)> {
    vec![(SNX, snx), (GOLD, gold), (OIL, 3 * ONE)]
}

fn shares_of(pool: &SyntheticPool, user: u64) -> u128 {
    pool.users.iter().find(|(id, _)| *id == user).unwrap().1.global_debt_share
}

fn collateral_of(pool: &SyntheticPool, user: u64) -> u128 {
    pool.users.iter().find(|(id, _)| *id == user).unwrap().1.snx
}

fn sum_of_shares(pool: &SyntheticPool) -> u128 {
    pool.users.iter().map(|(_, u)| u.global_debt_share).sum()
}

#[test]
fn scenario_mint_within_threshold_then_refused() {
    let mut pool = pool_with_gold();
    let p = prices(ONE, 2 * ONE);
    pool.stake(ALICE, 1000 * ONE).unwrap();
    assert_eq!(pool.mint(ALICE, 300 * ONE, &"GOLD".to_string(), &p), Ok(BOOTSTRAP_SHARES));
    assert_eq!(pool.get_total_global_debt(&p), Ok(600 * ONE));
    let supply_before = pool.total_share_supply;
    let shares_before = shares_of(&pool, ALICE);
    let gold_before = pool.synthetics[0].circulating_supply;
    assert_eq!(pool.mint(ALICE, 50 * ONE, &"GOLD".to_string(), &p), Err(PoolError::Undercollateralized));
    assert_eq!(pool.total_share_supply, supply_before);
    assert_eq!(shares_of(&pool, ALICE), shares_before);
    assert_eq!(pool.synthetics[0].circulating_supply, gold_before);
    assert_eq!(collateral_of(&pool, ALICE), 1000 * ONE);
    assert_eq!(pool.get_total_global_debt(&p), Ok(600 * ONE));
}

#[test]
fn bootstrap_mint_issues_fixed_shares_whatever_the_value() {
    for amount in [1u128, ONE, 7 * ONE] {
        let mut pool = pool_with_gold();
        pool.stake(ALICE, 1_000_000 * ONE).unwrap();
        assert_eq!(pool.mint(ALICE, amount, &"GOLD".to_string(), &prices(ONE, 2 * ONE)), Ok(100 * ONE));
        assert_eq!(pool.total_share_supply, 100 * ONE);
    }
}

#[test]
fn mint_is_proportional_and_second_mint_gets_fewer_shares() {
    let mut pool = pool_with_gold();
    let p = prices(ONE, 2 * ONE);
    pool.stake(ALICE, 10_000 * ONE).unwrap();
    pool.stake(BOB, 10_000 * ONE).unwrap();
    pool.mint(ALICE, 100 * ONE, &"GOLD".to_string(), &p).unwrap();
    // D = 200, S = 100, V = 2 * 50 = 100: shares = 100 * 100 / 200 = 50.
    let first = pool.mint(BOB, 50 * ONE, &"GOLD".to_string(), &p).unwrap();
    assert_eq!(first, 50 * ONE);
    // D = 300, S = 150, V = 100: shares = 100 * 150 / 300 = 50, no more than before.
    let second = pool.mint(BOB, 50 * ONE, &"GOLD".to_string(), &p).unwrap();
    assert!(second <= first);
    assert_eq!(second, 50 * ONE);
    // a price rise makes the share dearer: D = 2 * 3 * 200 = 1200, S = 200.
    let third = pool.mint(BOB, 50 * ONE, &"GOLD".to_string(), &prices(ONE, 6 * ONE)).unwrap();
    assert_eq!(third, 300 * ONE * 200 / 1200);
    assert_eq!(pool.total_share_supply, sum_of_shares(&pool));
}

#[test]
fn burn_after_mint_restores_share_balance() {
    let mut pool = pool_with_gold();
    let p = prices(ONE, 2 * ONE);
    pool.stake(ALICE, 10_000 * ONE).unwrap();
    pool.stake(BOB, 10_000 * ONE).unwrap();
    pool.mint(ALICE, 100 * ONE, &"GOLD".to_string(), &p).unwrap();
    let before = shares_of(&pool, BOB);
    let minted = pool.mint(BOB, 30 * ONE, &"GOLD".to_string(), &p).unwrap();
    let burnt = pool.burn(BOB, SGOLD, 30 * ONE, &p).unwrap();
    assert!(burnt <= minted);
    assert!(minted - burnt <= 1);
    assert!(shares_of(&pool, BOB) >= before);
    assert!(shares_of(&pool, BOB) - before <= 1);
    assert_eq!(pool.total_share_supply, sum_of_shares(&pool));
    assert_eq!(pool.synthetics[0].circulating_supply, 100 * ONE);
}

#[test]
fn share_supply_is_sum_of_balances_after_each_operation() {
    let mut pool = pool_with_gold();
    pool.add_synthetic_token("OIL".to_string(), OIL, SOIL).unwrap();
    let p = prices(2 * ONE, 5 * ONE);
    pool.stake(ALICE, 5000 * ONE).unwrap();
    assert_eq!(pool.total_share_supply, sum_of_shares(&pool));
    pool.stake(BOB, 3000 * ONE).unwrap();
    pool.mint(ALICE, 40 * ONE, &"GOLD".to_string(), &p).unwrap();
    assert_eq!(pool.total_share_supply, sum_of_shares(&pool));
    pool.mint(BOB, 70 * ONE, &"OIL".to_string(), &p).unwrap();
    assert_eq!(pool.total_share_supply, sum_of_shares(&pool));
    pool.burn(BOB, SOIL, 10 * ONE, &p).unwrap();
    assert_eq!(pool.total_share_supply, sum_of_shares(&pool));
    pool.unstake(ALICE, 100 * ONE, &p).unwrap();
    assert_eq!(pool.total_share_supply, sum_of_shares(&pool));
    let _ = pool.mint(ALICE, 10_000 * ONE, &"GOLD".to_string(), &p);
    assert_eq!(pool.total_share_supply, sum_of_shares(&pool));
}

#[test]
fn unstake_refused_when_undercollateralized_leaves_state() {
    let mut pool = pool_with_gold();
    let p = prices(ONE, 2 * ONE);
    pool.stake(ALICE, 1000 * ONE).unwrap();
    pool.mint(ALICE, 300 * ONE, &"GOLD".to_string(), &p).unwrap();
    // debt 600 needs 900 of collateral: taking 101 leaves 899.
    assert_eq!(pool.unstake(ALICE, 101 * ONE, &p), Err(PoolError::Undercollateralized));
    assert_eq!(collateral_of(&pool, ALICE), 1000 * ONE);
    assert_eq!(pool.unstake(ALICE, 100 * ONE, &p), Ok(100 * ONE));
    assert_eq!(collateral_of(&pool, ALICE), 900 * ONE);
}

#[test]
fn zero_debt_account_withdraws_everything_at_any_price() {
    let mut pool = pool_with_gold();
    pool.stake(ALICE, 1000 * ONE).unwrap();
    pool.stake(BOB, 10 * ONE).unwrap();
    pool.mint(BOB, ONE, &"GOLD".to_string(), &prices(100 * ONE, ONE)).unwrap();
    // the price feed moved and lost its collateral quote: ALICE owes nothing.
    let moved = vec![(GOLD, 1_000_000 * ONE)];
    assert_eq!(pool.unstake(ALICE, 1000 * ONE, &moved), Ok(1000 * ONE));
    assert_eq!(collateral_of(&pool, ALICE), 0);
}

#[test]
fn errors_for_each_kind() {
    let mut pool = pool_with_gold();
    let p = prices(ONE, 2 * ONE);
    assert_eq!(pool.add_synthetic_token("GOLD".to_string(), OIL, SOIL), Err(PoolError::DuplicateAsset));
    assert_eq!(pool.add_synthetic_token("OIL".to_string(), OIL, SGOLD), Err(PoolError::DuplicateAsset));
    assert_eq!(pool.unstake(ALICE, ONE, &p), Err(PoolError::AccountNotFound));
    assert_eq!(pool.mint(ALICE, ONE, &"GOLD".to_string(), &p), Err(PoolError::AccountNotFound));
    assert_eq!(pool.burn(ALICE, SGOLD, ONE, &p), Err(PoolError::AccountNotFound));
    pool.stake(ALICE, 1000 * ONE).unwrap();
    assert_eq!(pool.mint(ALICE, ONE, &"SILVER".to_string(), &p), Err(PoolError::UnknownAsset));
    assert_eq!(pool.burn(ALICE, SOIL, ONE, &p), Err(PoolError::UnknownAsset));
    assert_eq!(pool.unstake(ALICE, 1001 * ONE, &p), Err(PoolError::InsufficientCollateral));
    assert_eq!(pool.mint(ALICE, ONE, &"GOLD".to_string(), &vec![(SNX, ONE)]), Err(PoolError::PriceUnavailable));
    assert_eq!(pool.mint(ALICE, ONE, &"GOLD".to_string(), &vec![(GOLD, ONE)]), Err(PoolError::PriceUnavailable));
    assert_eq!(pool.stake(ALICE, u128::MAX), Err(PoolError::Overflow));
    assert_eq!(pool.mint(ALICE, u128::MAX, &"GOLD".to_string(), &p), Err(PoolError::Overflow));
    pool.stake(BOB, 1000 * ONE).unwrap();
    pool.mint(ALICE, 10 * ONE, &"GOLD".to_string(), &p).unwrap();
    pool.mint(BOB, 10 * ONE, &"GOLD".to_string(), &p).unwrap();
    assert_eq!(pool.burn(ALICE, SGOLD, 15 * ONE, &p), Err(PoolError::InsufficientShareBalance));
    assert_eq!(pool.mint(ALICE, ONE, &"GOLD".to_string(), &prices(ONE, 0)), Err(PoolError::ZeroGlobalDebt));
    assert_eq!(pool.burn(ALICE, SGOLD, ONE, &prices(ONE, 0)), Err(PoolError::ZeroGlobalDebt));
}

#[test]
fn burn_beyond_circulation_is_refused() {
    let mut pool = pool_with_gold();
    pool.add_synthetic_token("OIL".to_string(), OIL, SOIL).unwrap();
    let p = prices(ONE, 2 * ONE);
    pool.stake(ALICE, 1000 * ONE).unwrap();
    pool.mint(ALICE, 10 * ONE, &"GOLD".to_string(), &p).unwrap();
    pool.mint(ALICE, 10 * ONE, &"OIL".to_string(), &p).unwrap();
    // 11 OIL is worth 11 of the 30 of debt, within ALICE's shares, but only 10 circulate.
    assert_eq!(pool.burn(ALICE, SOIL, 11 * ONE, &vec![(SNX, ONE), (GOLD, 2 * ONE), (OIL, ONE)]),
        Err(PoolError::InsufficientSupply));
}

#[test]
fn collateral_check_formula() {
    let u = User { snx: 1000 * ONE, global_debt_share: 50 * ONE };
    // debt = 700 * 50 / 100 = 350; ratio 1000 / 350 >= 2.
    assert_eq!(u.check_collateralization_ratio(ONE, 700 * ONE, 100 * ONE, 2 * ONE), Ok(()));
    // debt = 1200 * 50 / 100 = 600; ratio 1000 / 600 < 2.
    assert_eq!(u.check_collateralization_ratio(ONE, 1200 * ONE, 100 * ONE, 2 * ONE), Err(PoolError::Undercollateralized));
    // exactly at the threshold passes: 1000 / 500 == 2.
    assert_eq!(u.check_collateralization_ratio(ONE, 1000 * ONE, 100 * ONE, 2 * ONE), Ok(()));
    let none = User::new();
    assert_eq!(none.check_collateralization_ratio(0, 1_000_000 * ONE, 100 * ONE, 2 * ONE), Ok(()));
    assert_eq!(u.check_collateralization_ratio(ONE, 1000 * ONE, 0, 2 * ONE), Ok(()));
}

#[test]
fn share_formulas_exact_values() {
    // 30 * 150 / 90 = 50
    assert_eq!(issue_shares(30 * ONE, 150 * ONE, 90 * ONE), Ok(50 * ONE));
    assert_eq!(issue_shares(30 * ONE, 0, 90 * ONE), Ok(BOOTSTRAP_SHARES));
    assert_eq!(issue_shares(30 * ONE, 150 * ONE, 0), Err(PoolError::ZeroGlobalDebt));
    // 1 * 1 / 3 truncates
    assert_eq!(issue_shares(ONE, ONE, 3 * ONE), Ok(333_333_333_333_333_333));
    assert_eq!(retire_shares(45 * ONE, 200 * ONE, 600 * ONE), Ok(15 * ONE));
    assert_eq!(retire_shares(ONE / 2, 3 * ONE, 2 * ONE), Ok(3 * ONE / 4));
    assert_eq!(retire_shares(u128::MAX, u128::MAX, ONE), Err(PoolError::Overflow));
}

#[test]
fn prices_and_global_debt() {
    let p = vec![(GOLD, 5 * ONE), (OIL, ONE / 2), (GOLD, 7 * ONE)];
    assert_eq!(lookup_price(&p, GOLD), Ok(5 * ONE));
    assert_eq!(lookup_price(&p, SNX), Err(PoolError::PriceUnavailable));
    let mut a = SyntheticToken::new("GOLD".to_string(), GOLD, SGOLD);
    a.circulating_supply = 3 * ONE;
    let mut b = SyntheticToken::new("OIL".to_string(), OIL, SOIL);
    b.circulating_supply = 5 * ONE;
    // 5 * 3 + 0.5 * 5 = 17.5
    assert_eq!(global_debt_of(&vec![a, b], &p), Ok(17 * ONE + ONE / 2));
    assert_eq!(global_debt_of(&vec![], &p), Ok(0));
}

#[test]
fn user_summary_reports_figures() {
    let mut pool = pool_with_gold();
    let p = prices(2 * ONE, 4 * ONE);
    assert_eq!(pool.get_user_summary(ALICE, &p), Err(PoolError::AccountNotFound));
    pool.stake(ALICE, 500 * ONE).unwrap();
    pool.mint(ALICE, 10 * ONE, &"GOLD".to_string(), &p).unwrap();
    let s = pool.get_user_summary(ALICE, &p).unwrap();
    assert_eq!(s.snx_balance, 500 * ONE);
    assert_eq!(s.snx_price, 2 * ONE);
    assert_eq!(s.global_debt, 40 * ONE);
    assert_eq!(s.debt_shares, BOOTSTRAP_SHARES);
    assert_eq!(s.total_share_supply, BOOTSTRAP_SHARES);
    assert_eq!(pool.get_snx_price(&p), Ok(2 * ONE));
    assert_eq!(pool.get_asset_price(GOLD, &p), Ok(4 * ONE));
}
