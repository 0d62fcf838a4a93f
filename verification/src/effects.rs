//! What each operation of the pool does to the balances, prices and reserves it touches, stated
//! over their fields.

use vstd::prelude::*;

use crate::math::{lemma_ceil_mul_div_le, lemma_pow10_monotone, pow10, WAD};
use crate::pool::{
    borrow_spec, init_reserve_spec, liquidation_spec, set_price_spec, supply_spec, withdraw_spec,
    PoolState,
};
use crate::position::{
    account_fits_reserves, asset_value, borrowing_power, data_fits, health_factor,
    reserves_wf, sum_scaled, sum_value, threshold_collateral, total_collateral, total_debt,
    AccountState, PoolError, Reserve, ReserveParams,
};

verus! {

/// Two reserves agree on everything but their liquidity.
pub open spec fn same_but_liquidity(r1: Reserve, r2: Reserve) -> bool {
    r1.params == r2.params && r1.price == r2.price && r1.deficit == r2.deficit
}

/// Supplying succeeds exactly when the asset is listed, the account exists, the amount is
/// nonzero and neither the balance nor the reserve's liquidity overflows, whatever the account
/// owes or its health factor; it raises the account's collateral in the asset and the reserve's
/// liquidity by the amount and changes nothing else.
pub proof fn law_supply_effect(s: PoolState, account: usize, asset: usize, amount: u128)
    requires
        s.wf(),
    ensures
        supply_spec(s, account, asset, amount) is Ok <==> {
            &&& asset < s.reserves.len()
            &&& account < s.accounts.len()
            &&& amount > 0
            &&& s.accounts[account as int].collateral[asset as int] + amount <= u128::MAX
            &&& s.reserves[asset as int].liquidity + amount <= u128::MAX
        },
        supply_spec(s, account, asset, amount) matches Ok(s2) ==> {
            let a = s.accounts[account as int];
            let a2 = s2.accounts[account as int];
            &&& a2.collateral.len() == a.collateral.len()
            &&& a2.collateral[asset as int] == a.collateral[asset as int] + amount
            &&& forall|j: int| 0 <= j < a.collateral.len() && j != asset ==> #[trigger] a2.collateral[j] == a.collateral[j]
            &&& a2.debt == a.debt
            &&& s2.accounts.len() == s.accounts.len()
            &&& forall|k: int| 0 <= k < s.accounts.len() && k != account ==> #[trigger] s2.accounts[k] == s.accounts[k]
            &&& s2.reserves.len() == s.reserves.len()
            &&& s2.reserves[asset as int].liquidity == s.reserves[asset as int].liquidity + amount
            &&& same_but_liquidity(s2.reserves[asset as int], s.reserves[asset as int])
            &&& forall|i: int| 0 <= i < s.reserves.len() && i != asset ==> #[trigger] s2.reserves[i] == s.reserves[i]
        },
{
    if asset < s.reserves.len() && account < s.accounts.len() {
        assert(account_fits_reserves(s.reserves, s.accounts[account as int]));
    }
}

/// A successful borrow raises the account's debt in the asset by the amount and lowers the
/// reserve's liquidity by it; every other balance, account and reserve stays as it was.
/// It succeeds exactly when the asset is listed and borrowable, the account exists, the amount
/// is nonzero and available, and the raised debt is within the borrowing power of the collateral.
pub proof fn law_borrow_effect(s: PoolState, account: usize, asset: usize, amount: u128)
    requires
        s.wf(),
    ensures
        borrow_spec(s, account, asset, amount) is Ok <==> {
            &&& asset < s.reserves.len()
            &&& account < s.accounts.len()
            &&& amount > 0
            &&& s.reserves[asset as int].params.borrowing_enabled
            &&& amount <= s.reserves[asset as int].liquidity
            &&& s.accounts[account as int].debt[asset as int] + amount <= u128::MAX
            &&& {
                let a = s.accounts[account as int];
                let raised = AccountState {
                    collateral: a.collateral,
                    debt: a.debt.update(asset as int, (a.debt[asset as int] + amount) as u128),
                };
                &&& data_fits(s.reserves, raised)
                &&& total_debt(s.reserves, raised) <= borrowing_power(s.reserves, raised)
            }
        },
        borrow_spec(s, account, asset, amount) matches Ok(s2) ==> {
            let a = s.accounts[account as int];
            let a2 = s2.accounts[account as int];
            &&& a2.debt.len() == a.debt.len()
            &&& a2.debt[asset as int] == a.debt[asset as int] + amount
            &&& forall|j: int| 0 <= j < a.debt.len() && j != asset ==> #[trigger] a2.debt[j] == a.debt[j]
            &&& a2.collateral == a.collateral
            &&& s2.accounts.len() == s.accounts.len()
            &&& forall|k: int| 0 <= k < s.accounts.len() && k != account ==> #[trigger] s2.accounts[k] == s.accounts[k]
            &&& s2.reserves.len() == s.reserves.len()
            &&& s2.reserves[asset as int].liquidity == s.reserves[asset as int].liquidity - amount
            &&& same_but_liquidity(s2.reserves[asset as int], s.reserves[asset as int])
            &&& forall|i: int| 0 <= i < s.reserves.len() && i != asset ==> #[trigger] s2.reserves[i] == s.reserves[i]
        },
{
    if asset < s.reserves.len() && account < s.accounts.len() {
        assert(account_fits_reserves(s.reserves, s.accounts[account as int]));
        let a = s.accounts[account as int];
        if borrow_spec(s, account, asset, amount) is Ok {
            let raised = AccountState {
                collateral: a.collateral,
                debt: a.debt.update(asset as int, (a.debt[asset as int] + amount) as u128),
            };
            assert(borrow_spec(s, account, asset, amount)->Ok_0.accounts[account as int] == raised);
        }
    }
}

/// A successful withdrawal lowers the account's collateral in the asset and the reserve's
/// liquidity by the amount, for debtors as for accounts without debt; nothing else changes.
/// It succeeds exactly when the asset is listed, the account exists, the amount is nonzero,
/// held and available, and, for an account that owes anything, the lowered position still has a
/// health factor of at least one.
pub proof fn law_withdraw_effect(s: PoolState, account: usize, asset: usize, amount: u128)
    requires
        s.wf(),
    ensures
        withdraw_spec(s, account, asset, amount) is Ok <==> {
            &&& asset < s.reserves.len()
            &&& account < s.accounts.len()
            &&& amount > 0
            &&& amount <= s.accounts[account as int].collateral[asset as int]
            &&& amount <= s.reserves[asset as int].liquidity
            &&& {
                let a = s.accounts[account as int];
                let lowered = AccountState {
                    collateral: a.collateral.update(
                        asset as int,
                        (a.collateral[asset as int] - amount) as u128,
                    ),
                    debt: a.debt,
                };
                (exists|k: int| 0 <= k < a.debt.len() && #[trigger] a.debt[k] > 0) ==> data_fits(
                    s.reserves,
                    lowered,
                ) && health_factor(
                    s.reserves,
                    lowered,
                ) >= WAD
            }
        },
        withdraw_spec(s, account, asset, amount) matches Ok(s2) ==> {
            let a = s.accounts[account as int];
            let a2 = s2.accounts[account as int];
            &&& a2.collateral.len() == a.collateral.len()
            &&& a2.collateral[asset as int] == a.collateral[asset as int] - amount
            &&& forall|j: int| 0 <= j < a.collateral.len() && j != asset ==> #[trigger] a2.collateral[j] == a.collateral[j]
            &&& a2.debt == a.debt
            &&& s2.accounts.len() == s.accounts.len()
            &&& forall|k: int| 0 <= k < s.accounts.len() && k != account ==> #[trigger] s2.accounts[k] == s.accounts[k]
            &&& s2.reserves.len() == s.reserves.len()
            &&& s2.reserves[asset as int].liquidity == s.reserves[asset as int].liquidity - amount
            &&& same_but_liquidity(s2.reserves[asset as int], s.reserves[asset as int])
            &&& forall|i: int| 0 <= i < s.reserves.len() && i != asset ==> #[trigger] s2.reserves[i] == s.reserves[i]
        },
{
    if asset < s.reserves.len() && account < s.accounts.len() {
        assert(account_fits_reserves(s.reserves, s.accounts[account as int]));
    }
}

/// Setting a price succeeds exactly for a listed asset and a nonzero price; the asset's price is
/// then the given one, whether it rose or fell, and nothing else changes.
pub proof fn law_set_price_effect(s: PoolState, asset: usize, price: u128)
    requires
        s.wf(),
    ensures
        set_price_spec(s, asset, price) is Ok <==> asset < s.reserves.len() && price > 0,
        set_price_spec(s, asset, price) matches Ok(s2) ==> {
            let r = s.reserves[asset as int];
            let r2 = s2.reserves[asset as int];
            &&& r2.price == price
            &&& r2.params == r.params
            &&& r2.liquidity == r.liquidity
            &&& r2.deficit == r.deficit
            &&& s2.reserves.len() == s.reserves.len()
            &&& forall|i: int| 0 <= i < s.reserves.len() && i != asset ==> #[trigger] s2.reserves[i] == s.reserves[i]
            &&& s2.accounts == s.accounts
        },
{
}

/// Listing succeeds exactly for valid parameters and a nonzero price; the new reserve comes last,
/// at that price with nothing held and no deficit, and every account holds and owes nothing in it
/// while keeping its other balances.
pub proof fn law_init_reserve_effect(s: PoolState, params: ReserveParams, price: u128)
    requires
        s.wf(),
    ensures
        init_reserve_spec(s, params, price) is Ok <==> {
            &&& params.decimals <= 38
            &&& params.ltv <= params.liquidation_threshold
            &&& params.liquidation_threshold <= 10_000
            &&& params.liquidation_bonus <= 10_000
            &&& price > 0
        },
        init_reserve_spec(s, params, price) matches Ok(s2) ==> {
            let n = s.reserves.len() as int;
            &&& s2.reserves.len() == n + 1
            &&& s2.reserves[n] == (Reserve { params, price, liquidity: 0, deficit: 0 })
            &&& forall|i: int| 0 <= i < n ==> #[trigger] s2.reserves[i] == s.reserves[i]
            &&& s2.accounts.len() == s.accounts.len()
            &&& forall|k: int|
                0 <= k < s.accounts.len() ==> {
                    &&& #[trigger] s2.accounts[k].collateral.len() == n + 1
                    &&& s2.accounts[k].debt.len() == n + 1
                    &&& s2.accounts[k].collateral[n] == 0
                    &&& s2.accounts[k].debt[n] == 0
                    &&& forall|i: int|
                        0 <= i < n ==> #[trigger] s2.accounts[k].collateral[i]
                            == s.accounts[k].collateral[i] && s2.accounts[k].debt[i]
                            == s.accounts[k].debt[i]
                }
        },
{
    if init_reserve_spec(s, params, price) is Ok {
        let s2 = init_reserve_spec(s, params, price)->Ok_0;
        assert forall|k: int| 0 <= k < s.accounts.len() implies {
            &&& #[trigger] s2.accounts[k].collateral.len() == s.reserves.len() + 1
            &&& s2.accounts[k].debt.len() == s.reserves.len() + 1
        } by {
            assert(account_fits_reserves(s.reserves, s.accounts[k]));
        }
    }
}

/// The collateral tokens worth `dtc` debt tokens plus the collateral reserve's bonus:
/// value the debt at the debt reserve's price, add the bonus of the reserve whose collateral is
/// taken, and convert at the collateral reserve's price.
pub open spec fn bonus_collateral(rd: Reserve, rc: Reserve, dtc: nat) -> nat {
    let debt_value = dtc * (rd.price as nat) / pow10(rd.params.decimals as nat);
    let with_bonus = debt_value * (10_000nat + rc.params.liquidation_bonus as nat) / 10_000nat;
    with_bonus * pow10(rc.params.decimals as nat) / (rc.price as nat)
}

/// A successful leg, over the fields it reads and writes: the collateral wanted is the debt's
/// value plus the collateral reserve's bonus at the collateral's price. If the user holds at
/// least that much, it is seized, the whole request is repaid and nothing is written off;
/// otherwise the whole balance is seized, `ceil(request * balance / wanted)` is repaid and the
/// rest of the user's debt in the asset is written off. The user's balances, the reserves'
/// liquidity and the debt reserve's deficit move by exactly these amounts, and with
/// `receive_a_token` the liquidator's collateral grows by the seized amount.
pub proof fn law_liquidation_effect(
    s: PoolState,
    liquidator: usize,
    collateral_asset: usize,
    debt_asset: usize,
    user: usize,
    debt_to_cover: u128,
    receive_a_token: bool,
)
    requires
        s.wf(),
        liquidation_spec(
            s,
            liquidator,
            collateral_asset,
            debt_asset,
            user,
            debt_to_cover,
            receive_a_token,
        ) is Ok,
    ensures
        ({
            let (s2, o) = liquidation_spec(
                s,
                liquidator,
                collateral_asset,
                debt_asset,
                user,
                debt_to_cover,
                receive_a_token,
            )->Ok_0;
            let c = collateral_asset as int;
            let d = debt_asset as int;
            let rd = s.reserves[d];
            let rc = s.reserves[c];
            let a = s.accounts[user as int];
            let a2 = s2.accounts[user as int];
            let held = a.collateral[c] as nat;
            let debt = a.debt[d] as nat;
            let wanted = bonus_collateral(rd, rc, debt_to_cover as nat);
            &&& o.collateral_cap_triggered == (wanted > held)
            &&& wanted <= held ==> {
                &&& o.collateral_seized == wanted
                &&& o.debt_repaid == debt_to_cover
                &&& o.debt_written_off == 0
            }
            &&& wanted > held ==> {
                &&& o.collateral_seized == held
                &&& o.debt_repaid == (debt_to_cover * held + wanted - 1) as nat / wanted
                &&& o.debt_written_off == debt - o.debt_repaid
                &&& a2.debt[d] == 0
            }
            &&& a2.debt[d] == debt - o.debt_repaid - o.debt_written_off
            &&& (!receive_a_token || liquidator != user) ==> a2.collateral[c] == held
                - o.collateral_seized
            &&& s2.reserves[d].deficit == rd.deficit + o.debt_written_off
            &&& !receive_a_token && c != d ==> {
                &&& s2.reserves[d].liquidity == rd.liquidity + o.debt_repaid
                &&& s2.reserves[c].liquidity == rc.liquidity - o.collateral_seized
            }
            &&& !receive_a_token && c == d ==> s2.reserves[d].liquidity == rd.liquidity
                + o.debt_repaid - o.collateral_seized
            &&& receive_a_token ==> s2.reserves[d].liquidity == rd.liquidity + o.debt_repaid
            &&& receive_a_token && c != d ==> s2.reserves[c].liquidity == rc.liquidity
            &&& receive_a_token && liquidator != user ==> s2.accounts[liquidator as int].collateral[c]
                == s.accounts[liquidator as int].collateral[c] + o.collateral_seized
            &&& s2.reserves.len() == s.reserves.len()
            &&& forall|i: int|
                0 <= i < s.reserves.len() ==> #[trigger] s2.reserves[i].params
                    == s.reserves[i].params && s2.reserves[i].price == s.reserves[i].price
            &&& forall|i: int|
                0 <= i < s.reserves.len() && i != c && i != d ==> #[trigger] s2.reserves[i]
                    == s.reserves[i]
            &&& s2.accounts.len() == s.accounts.len()
            &&& forall|k: int|
                0 <= k < s.accounts.len() && k != user && k != liquidator ==> #[trigger] s2.accounts[k]
                    == s.accounts[k]
            &&& !receive_a_token ==> s2.accounts[liquidator as int] == s.accounts[liquidator as int]
                || liquidator == user
        }),
{
    crate::laws::law_liquidation_accounting(
        s,
        liquidator,
        collateral_asset,
        debt_asset,
        user,
        debt_to_cover,
        receive_a_token,
    );
}

/// The base-currency value of `amount` tokens of the reserve, over its fields.
pub open spec fn token_value(r: Reserve, amount: u128) -> nat {
    (amount as nat) * (r.price as nat) / pow10(r.params.decimals as nat)
}

/// Sums over balances that are zero everywhere but at `i` reduce to the term at `i`.
proof fn lemma_sums_single(rs: Seq<Reserve>, bal: Seq<u128>, i: int, n: int)
    requires
        reserves_wf(rs),
        bal.len() == rs.len(),
        0 <= i < rs.len(),
        n <= rs.len(),
        forall|k: int| 0 <= k < bal.len() && k != i ==> #[trigger] bal[k] == 0,
    ensures
        sum_value(rs, bal, n) == if i < n {
            token_value(rs[i], bal[i])
        } else {
            0
        },
        sum_scaled(rs, bal, n, true) == if i < n {
            token_value(rs[i], bal[i]) * (rs[i].params.liquidation_threshold as nat) / 10_000nat
        } else {
            0
        },
        sum_scaled(rs, bal, n, false) == if i < n {
            token_value(rs[i], bal[i]) * (rs[i].params.ltv as nat) / 10_000nat
        } else {
            0
        },
    decreases n,
{
    if n > 0 {
        lemma_sums_single(rs, bal, i, n - 1);
        let k = n - 1;
        if k != i {
            assert(rs[k].params.valid());
            lemma_pow10_monotone(0, rs[k].params.decimals as nat);
            assert(bal[k] == 0);
            assert(asset_value(rs[k], bal[k]) == 0);
        }
    }
}

/// For an account holding collateral only in reserve `i` and owing only to reserve `j`:
/// its collateral is worth `amount * price / 10^decimals` of reserve `i`, its borrowing power and
/// threshold-weighted collateral are that value times the loan-to-value and the liquidation
/// threshold of reserve `i` (in basis points, rounded down), its debt is worth the debt balance
/// at reserve `j`'s price, and its health factor is the weighted collateral times one WAD over
/// that debt, or `u128::MAX` when the debt is worth nothing.
pub proof fn law_single_pair_valuation(rs: Seq<Reserve>, a: AccountState, i: int, j: int)
    requires
        reserves_wf(rs),
        account_fits_reserves(rs, a),
        0 <= i < rs.len(),
        0 <= j < rs.len(),
        forall|k: int| 0 <= k < rs.len() && k != i ==> #[trigger] a.collateral[k] == 0,
        forall|k: int| 0 <= k < rs.len() && k != j ==> #[trigger] a.debt[k] == 0,
    ensures
        ({
            let cv = token_value(rs[i], a.collateral[i]);
            let dv = token_value(rs[j], a.debt[j]);
            let weighted = cv * (rs[i].params.liquidation_threshold as nat) / 10_000nat;
            &&& total_collateral(rs, a) == cv
            &&& total_debt(rs, a) == dv
            &&& threshold_collateral(rs, a) == weighted
            &&& borrowing_power(rs, a) == cv * (rs[i].params.ltv as nat) / 10_000nat
            &&& health_factor(rs, a) == if dv == 0 {
                u128::MAX as nat
            } else {
                weighted * (WAD as nat) / dv
            }
        }),
{
    lemma_sums_single(rs, a.collateral, i, rs.len() as int);
    lemma_sums_single(rs, a.debt, j, rs.len() as int);
}

/// Refusals of a leg on listed assets, existing accounts and a nonzero request whose position
/// values without overflow: a health factor of at least one refuses it as not liquidatable; below
/// one, a user owing nothing of the debt asset or holding nothing of the collateral asset is
/// refused; and a request above the whole debt, or above half of it while the health factor is at
/// least one half, exceeds the close factor. A leg that is not refused for these reasons, and
/// whose amounts fit, succeeds.
pub proof fn law_liquidation_refusals(
    s: PoolState,
    liquidator: usize,
    collateral_asset: usize,
    debt_asset: usize,
    user: usize,
    debt_to_cover: u128,
    receive_a_token: bool,
)
    requires
        s.wf(),
        collateral_asset < s.reserves.len(),
        debt_asset < s.reserves.len(),
        user < s.accounts.len(),
        liquidator < s.accounts.len(),
        debt_to_cover > 0,
        data_fits(s.reserves, s.accounts[user as int]),
    ensures
        ({
            let r = liquidation_spec(
                s,
                liquidator,
                collateral_asset,
                debt_asset,
                user,
                debt_to_cover,
                receive_a_token,
            );
            let c = collateral_asset as int;
            let d = debt_asset as int;
            let a = s.accounts[user as int];
            let hf = health_factor(s.reserves, a);
            let debt = a.debt[d] as nat;
            let held = a.collateral[c] as nat;
            let rd = s.reserves[d];
            let rc = s.reserves[c];
            let dv = (debt_to_cover as nat) * (rd.price as nat) / pow10(rd.params.decimals as nat);
            let bonused = dv * (10_000nat + rc.params.liquidation_bonus as nat) / 10_000nat;
            let wanted = bonus_collateral(rd, rc, debt_to_cover as nat);
            let repaid = if wanted > held {
                (debt_to_cover * held + wanted - 1) as nat / wanted
            } else {
                debt_to_cover as nat
            };
            let seized = if wanted > held {
                held
            } else {
                wanted
            };
            let written_off = if wanted > held {
                debt - repaid
            } else {
                0
            };
            &&& hf >= WAD ==> r == Err::<(PoolState, crate::pool::LiquidationOutcome), PoolError>(
                PoolError::NotLiquidatable,
            )
            &&& hf < WAD && debt == 0 ==> r == Err::<
                (PoolState, crate::pool::LiquidationOutcome),
                PoolError,
            >(PoolError::NoDebt)
            &&& hf < WAD && debt > 0 && held == 0 ==> r == Err::<
                (PoolState, crate::pool::LiquidationOutcome),
                PoolError,
            >(PoolError::NoCollateral)
            &&& hf < WAD && debt > 0 && held > 0 && (debt_to_cover > debt || (hf * 2 >= WAD
                && debt_to_cover * 2 > debt)) ==> r == Err::<
                (PoolState, crate::pool::LiquidationOutcome),
                PoolError,
            >(PoolError::CloseFactorExceeded)
            &&& ({
                &&& hf < WAD
                &&& debt > 0
                &&& held > 0
                &&& debt_to_cover <= debt
                &&& hf * 2 >= WAD ==> debt_to_cover * 2 <= debt
                &&& debt_to_cover * rd.price <= u128::MAX
                &&& dv * (10_000nat + rc.params.liquidation_bonus as nat) <= u128::MAX
                &&& bonused * pow10(rc.params.decimals as nat) <= u128::MAX
                &&& wanted > held ==> debt_to_cover * held + wanted - 1 <= u128::MAX
                &&& rd.liquidity + repaid <= u128::MAX
                &&& rd.deficit + written_off <= u128::MAX
                &&& receive_a_token ==> (if liquidator == user {
                    held - seized
                } else {
                    s.accounts[liquidator as int].collateral[c] as int
                }) + seized <= u128::MAX
                &&& !receive_a_token ==> seized <= (if c == d {
                    rd.liquidity + repaid
                } else {
                    rc.liquidity as int
                })
            }) ==> r is Ok
        }),
{
    let a = s.accounts[user as int];
    let debt = a.debt[debt_asset as int] as nat;
    assert(debt * 10_000 / 10_000 == debt) by (nonlinear_arith);
    assert(debt * 5_000 / 10_000 == debt / 2) by (nonlinear_arith);
    assert(account_fits_reserves(s.reserves, a));
    let held = a.collateral[collateral_asset as int] as nat;
    let rd = s.reserves[debt_asset as int];
    let rc = s.reserves[collateral_asset as int];
    let wanted = bonus_collateral(rd, rc, debt_to_cover as nat);
    assert(wanted == crate::pool::collateral_for(rd, rc, debt_to_cover as nat));
    if wanted > held {
        lemma_ceil_mul_div_le(debt_to_cover as nat, held, wanted);
    }
}

/// Sums split into the term at `i` and the sums with that balance zeroed.
proof fn lemma_sums_split(rs: Seq<Reserve>, bal: Seq<u128>, i: int, n: int)
    requires
        reserves_wf(rs),
        bal.len() == rs.len(),
        0 <= i < rs.len(),
        n <= rs.len(),
    ensures
        sum_value(rs, bal, n) == (if i < n {
            token_value(rs[i], bal[i])
        } else {
            0
        }) + sum_value(rs, bal.update(i, 0), n),
        sum_scaled(rs, bal, n, true) == (if i < n {
            token_value(rs[i], bal[i]) * (rs[i].params.liquidation_threshold as nat) / 10_000nat
        } else {
            0
        }) + sum_scaled(rs, bal.update(i, 0), n, true),
        sum_scaled(rs, bal, n, false) == (if i < n {
            token_value(rs[i], bal[i]) * (rs[i].params.ltv as nat) / 10_000nat
        } else {
            0
        }) + sum_scaled(rs, bal.update(i, 0), n, false),
    decreases n,
{
    if n > 0 {
        lemma_sums_split(rs, bal, i, n - 1);
        let k = n - 1;
        if k == i {
            assert(rs[k].params.valid());
            lemma_pow10_monotone(0, rs[k].params.decimals as nat);
            assert(bal.update(i, 0)[k] == 0);
            assert(asset_value(rs[k], 0) == 0);
        } else {
            assert(bal.update(i, 0)[k] == bal[k]);
        }
    }
}

/// Each valuation of an account is the contribution of reserve `i` plus the valuation of the same
/// account with its balance in `i` zeroed: collateral worth `amount * price / 10^decimals`,
/// weighted by the threshold or the loan-to-value in basis points, and debt worth its balance at
/// the price.
pub proof fn law_valuation_splits(rs: Seq<Reserve>, a: AccountState, i: int)
    requires
        reserves_wf(rs),
        account_fits_reserves(rs, a),
        0 <= i < rs.len(),
    ensures
        ({
            let cv = token_value(rs[i], a.collateral[i]);
            let no_coll = AccountState { collateral: a.collateral.update(i, 0), debt: a.debt };
            let no_debt = AccountState { collateral: a.collateral, debt: a.debt.update(i, 0) };
            &&& total_collateral(rs, a) == cv + total_collateral(rs, no_coll)
            &&& threshold_collateral(rs, a) == cv * (rs[i].params.liquidation_threshold as nat)
                / 10_000nat + threshold_collateral(rs, no_coll)
            &&& borrowing_power(rs, a) == cv * (rs[i].params.ltv as nat) / 10_000nat
                + borrowing_power(rs, no_coll)
            &&& total_debt(rs, a) == token_value(rs[i], a.debt[i]) + total_debt(rs, no_debt)
        }),
{
    lemma_sums_split(rs, a.collateral, i, rs.len() as int);
    lemma_sums_split(rs, a.debt, i, rs.len() as int);
}

} // verus!
