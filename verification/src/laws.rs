//! Properties of the pool that span its operations.

use vstd::prelude::*;

use crate::math::{
    ceil_mul_div, lemma_bps_monotone_value, lemma_ceil_mul_div_le, lemma_pow10_monotone,
    lemma_value_monotone_price, WAD,
};
use crate::pool::{
    borrow_spec, collateral_for, liquidation_spec, max_repayable, set_price_spec, supply_spec,
    withdraw_spec, PoolState,
};
use crate::position::{
    account_fits_reserves, asset_value, data_fits, health_factor, lemma_scaled_le_value,
    lemma_valuation_ignores_liquidity, sum_scaled, sum_value, threshold_collateral, total_debt,
    AccountState, PoolError, Reserve,
};

verus! {

/// A liquidation leg succeeds only against a position whose health factor is below one, and
/// repays no more than the close factor allows of the user's debt in the debt asset.
pub proof fn law_liquidation_needs_unhealthy_position(
    s: PoolState,
    liquidator: usize,
    collateral_asset: usize,
    debt_asset: usize,
    user: usize,
    debt_to_cover: u128,
    receive_a_token: bool,
)
    requires
        s.wf(),
        liquidation_spec(
            s,
            liquidator,
            collateral_asset,
            debt_asset,
            user,
            debt_to_cover,
            receive_a_token,
        ) is Ok,
    ensures
        health_factor(s.reserves, s.accounts[user as int]) < WAD,
        ({
            let o = liquidation_spec(
                s,
                liquidator,
                collateral_asset,
                debt_asset,
                user,
                debt_to_cover,
                receive_a_token,
            )->Ok_0.1;
            &&& o.debt_repaid <= debt_to_cover
            &&& debt_to_cover <= max_repayable(
                s.accounts[user as int].debt[debt_asset as int] as nat,
                health_factor(s.reserves, s.accounts[user as int]),
            )
        }),
{
    let a = s.accounts[user as int];
    let held = a.collateral[collateral_asset as int];
    let wanted = collateral_for(
        s.reserves[debt_asset as int],
        s.reserves[collateral_asset as int],
        debt_to_cover as nat,
    );
    if wanted > held {
        lemma_ceil_mul_div_le(debt_to_cover as nat, held as nat, wanted);
    }
}

/// The collateral cap triggers exactly when the selected collateral asset's balance is below the
/// collateral worth the requested leg. Then the whole balance is seized and the repayment is
/// scaled to `ceil(debt_to_cover * balance / wanted)`; otherwise the requested leg is repaid in
/// full, the collateral worth it is seized, and nothing is written off.
pub proof fn law_collateral_cap(
    s: PoolState,
    liquidator: usize,
    collateral_asset: usize,
    debt_asset: usize,
    user: usize,
    debt_to_cover: u128,
    receive_a_token: bool,
)
    requires
        s.wf(),
        liquidation_spec(
            s,
            liquidator,
            collateral_asset,
            debt_asset,
            user,
            debt_to_cover,
            receive_a_token,
        ) is Ok,
    ensures
        ({
            let o = liquidation_spec(
                s,
                liquidator,
                collateral_asset,
                debt_asset,
                user,
                debt_to_cover,
                receive_a_token,
            )->Ok_0.1;
            let held = s.accounts[user as int].collateral[collateral_asset as int] as nat;
            let wanted = collateral_for(
                s.reserves[debt_asset as int],
                s.reserves[collateral_asset as int],
                debt_to_cover as nat,
            );
            &&& o.collateral_cap_triggered <==> wanted > held
            &&& o.collateral_cap_triggered ==> {
                &&& o.collateral_seized == held
                &&& o.debt_repaid == ceil_mul_div(debt_to_cover as nat, held, wanted)
            }
            &&& !o.collateral_cap_triggered ==> {
                &&& o.collateral_seized == wanted
                &&& o.debt_repaid == debt_to_cover
                &&& o.debt_written_off == 0
            }
        }),
{
}

/// A leg moves the user's debt in the debt asset into repayment and write-off and nothing else:
/// the old debt equals the new debt plus the repayment plus the write-off, the debt reserve's
/// deficit grows by exactly the write-off, the repayment enters the debt reserve, the seized
/// collateral leaves the user's balance in the collateral asset, and every other balance of the
/// user and every other reserve's deficit stay as they were. When the cap triggers, the user
/// owes nothing more of the debt asset.
pub proof fn law_liquidation_accounting(
    s: PoolState,
    liquidator: usize,
    collateral_asset: usize,
    debt_asset: usize,
    user: usize,
    debt_to_cover: u128,
    receive_a_token: bool,
)
    requires
        s.wf(),
        liquidation_spec(
            s,
            liquidator,
            collateral_asset,
            debt_asset,
            user,
            debt_to_cover,
            receive_a_token,
        ) is Ok,
    ensures
        ({
            let (s2, o) = liquidation_spec(
                s,
                liquidator,
                collateral_asset,
                debt_asset,
                user,
                debt_to_cover,
                receive_a_token,
            )->Ok_0;
            let c = collateral_asset as int;
            let d = debt_asset as int;
            let a = s.accounts[user as int];
            let a2 = s2.accounts[user as int];
            &&& s2.wf()
            &&& a.debt[d] == a2.debt[d] + o.debt_repaid + o.debt_written_off
            &&& s2.reserves[d].deficit == s.reserves[d].deficit + o.debt_written_off
            &&& s2.reserves[d].liquidity == s.reserves[d].liquidity + o.debt_repaid - (if c == d
                && !receive_a_token {
                o.collateral_seized as int
            } else {
                0
            })
            &&& (!receive_a_token || liquidator != user) ==> a2.collateral[c] == a.collateral[c]
                - o.collateral_seized
            &&& o.collateral_cap_triggered ==> a2.debt[d] == 0
            &&& forall|j: int| 0 <= j < s.reserves.len() && j != d ==> #[trigger] a2.debt[j] == a.debt[j]
            &&& forall|j: int| 0 <= j < s.reserves.len() && j != c ==> #[trigger] a2.collateral[j] == a.collateral[j]
            &&& forall|j: int|
                0 <= j < s.reserves.len() && j != d ==> #[trigger] s2.reserves[j].deficit
                    == s.reserves[j].deficit
        }),
{
    let a = s.accounts[user as int];
    let held = a.collateral[collateral_asset as int];
    let wanted = collateral_for(
        s.reserves[debt_asset as int],
        s.reserves[collateral_asset as int],
        debt_to_cover as nat,
    );
    if wanted > held {
        lemma_ceil_mul_div_le(debt_to_cover as nat, held as nat, wanted);
    }
    let s2 = liquidation_spec(
        s,
        liquidator,
        collateral_asset,
        debt_asset,
        user,
        debt_to_cover,
        receive_a_token,
    )->Ok_0.0;
    assert(account_fits_reserves(s.reserves, a));
    lemma_max_repayable_le(a.debt[debt_asset as int] as nat, health_factor(s.reserves, a));
    assert(s2.wf()) by {
        assert(s2.reserves.len() == s.reserves.len());
        assert forall|i: int| 0 <= i < s2.reserves.len() implies #[trigger] s2.reserves[i].params.valid()
            && s2.reserves[i].price > 0 by {
            assert(s.reserves[i].params.valid());
        }
        assert forall|k: int| 0 <= k < s2.accounts.len() implies account_fits_reserves(
            s2.reserves,
            #[trigger] s2.accounts[k],
        ) by {
            assert(account_fits_reserves(s.reserves, s.accounts[k]));
        }
    }
}

/// A leg on a user who owes nothing but the debt asset, when the cap triggers, leaves the user
/// owing nothing at all; the user may then withdraw any amount of any other collateral it holds
/// that the reserve can pay out.
pub proof fn law_capped_leg_frees_remaining_collateral(
    s: PoolState,
    liquidator: usize,
    collateral_asset: usize,
    debt_asset: usize,
    user: usize,
    debt_to_cover: u128,
    receive_a_token: bool,
    other_asset: usize,
    amount: u128,
)
    requires
        s.wf(),
        liquidation_spec(
            s,
            liquidator,
            collateral_asset,
            debt_asset,
            user,
            debt_to_cover,
            receive_a_token,
        ) is Ok,
        liquidation_spec(
            s,
            liquidator,
            collateral_asset,
            debt_asset,
            user,
            debt_to_cover,
            receive_a_token,
        )->Ok_0.1.collateral_cap_triggered,
        forall|j: int|
            0 <= j < s.reserves.len() && j != debt_asset ==> #[trigger] s.accounts[user as int].debt[j]
                == 0,
        other_asset < s.reserves.len(),
        other_asset != collateral_asset,
        0 < amount <= s.accounts[user as int].collateral[other_asset as int],
        amount <= liquidation_spec(
            s,
            liquidator,
            collateral_asset,
            debt_asset,
            user,
            debt_to_cover,
            receive_a_token,
        )->Ok_0.0.reserves[other_asset as int].liquidity,
    ensures
        ({
            let s2 = liquidation_spec(
                s,
                liquidator,
                collateral_asset,
                debt_asset,
                user,
                debt_to_cover,
                receive_a_token,
            )->Ok_0.0;
            &&& forall|k: int|
                0 <= k < s2.accounts[user as int].debt.len() ==> #[trigger] s2.accounts[user as int].debt[k]
                    == 0
            &&& withdraw_spec(s2, user, other_asset, amount) is Ok
        }),
{
    law_liquidation_accounting(
        s,
        liquidator,
        collateral_asset,
        debt_asset,
        user,
        debt_to_cover,
        receive_a_token,
    );
    let s2 = liquidation_spec(
        s,
        liquidator,
        collateral_asset,
        debt_asset,
        user,
        debt_to_cover,
        receive_a_token,
    )->Ok_0.0;
    let a2 = s2.accounts[user as int];
    assert(account_fits_reserves(s2.reserves, a2));
    assert forall|j: int| 0 <= j < a2.debt.len() implies #[trigger] a2.debt[j] == 0 by {
        if j != debt_asset {
            assert(a2.debt[j] == s.accounts[user as int].debt[j]);
        }
    }
}

/// One leg never repays more than the whole debt.
proof fn lemma_max_repayable_le(debt: nat, hf: nat)
    ensures
        max_repayable(debt, hf) <= debt,
{
    assert(debt * 10_000 / 10_000 == debt) by (nonlinear_arith);
    assert(debt * 5_000 / 10_000 <= debt) by (nonlinear_arith);
}

/// A successful borrow leaves the borrower with a health factor of at least one.
pub proof fn law_borrow_leaves_position_healthy(
    s: PoolState,
    account: usize,
    asset: usize,
    amount: u128,
)
    requires
        s.wf(),
        borrow_spec(s, account, asset, amount) is Ok,
    ensures
        ({
            let s2 = borrow_spec(s, account, asset, amount)->Ok_0;
            &&& data_fits(s2.reserves, s2.accounts[account as int])
            &&& health_factor(s2.reserves, s2.accounts[account as int]) >= WAD
        }),
{
    let s2 = borrow_spec(s, account, asset, amount)->Ok_0;
    let a2 = s2.accounts[account as int];
    lemma_valuation_ignores_liquidity(s.reserves, s2.reserves, a2);
    lemma_scaled_le_value(s.reserves, a2.collateral, s.reserves.len() as int);
    lemma_health_at_least_one(s.reserves, a2);
}

/// With debt no larger than the threshold-weighted collateral, the health factor is at least one.
proof fn lemma_health_at_least_one(rs: Seq<Reserve>, a: AccountState)
    requires
        total_debt(rs, a) <= threshold_collateral(rs, a),
    ensures
        health_factor(rs, a) >= WAD,
{
    let td = total_debt(rs, a);
    let tt = threshold_collateral(rs, a);
    if td > 0 {
        assert(tt * (WAD as nat) / td >= WAD) by (nonlinear_arith)
            requires
                td > 0,
                td <= tt,
        {
            assert(tt * (WAD as nat) >= td * (WAD as nat));
            assert(td * (WAD as nat) / td == WAD);
        }
    }
}

/// Right after a successful borrow, no liquidation leg against the borrower succeeds: a position
/// becomes liquidatable only through a later change, such as a price move.
pub proof fn law_fresh_borrow_not_liquidatable(
    s: PoolState,
    account: usize,
    asset: usize,
    amount: u128,
    liquidator: usize,
    collateral_asset: usize,
    debt_asset: usize,
    debt_to_cover: u128,
    receive_a_token: bool,
)
    requires
        s.wf(),
        borrow_spec(s, account, asset, amount) is Ok,
    ensures
        !(liquidation_spec(
            borrow_spec(s, account, asset, amount)->Ok_0,
            liquidator,
            collateral_asset,
            debt_asset,
            account,
            debt_to_cover,
            receive_a_token,
        ) is Ok),
{
    law_borrow_leaves_position_healthy(s, account, asset, amount);
}

/// A successful withdrawal leaves a debtor with a health factor of at least one.
pub proof fn law_withdraw_keeps_debtor_healthy(
    s: PoolState,
    account: usize,
    asset: usize,
    amount: u128,
)
    requires
        s.wf(),
        withdraw_spec(s, account, asset, amount) is Ok,
        exists|k: int|
            0 <= k < s.accounts[account as int].debt.len() && #[trigger] s.accounts[account as int].debt[k] > 0,
    ensures
        health_factor(
            withdraw_spec(s, account, asset, amount)->Ok_0.reserves,
            withdraw_spec(s, account, asset, amount)->Ok_0.accounts[account as int],
        ) >= WAD,
{
    let s2 = withdraw_spec(s, account, asset, amount)->Ok_0;
    lemma_valuation_ignores_liquidity(s.reserves, s2.reserves, s2.accounts[account as int]);
}

/// Withdrawing what was just supplied, by an account that owes nothing, succeeds and restores
/// the pool to its state before the supply.
pub proof fn law_supply_then_withdraw_restores(
    s: PoolState,
    account: usize,
    asset: usize,
    amount: u128,
)
    requires
        s.wf(),
        supply_spec(s, account, asset, amount) is Ok,
        forall|k: int|
            0 <= k < s.accounts[account as int].debt.len() ==> #[trigger] s.accounts[account as int].debt[k] == 0,
    ensures
        withdraw_spec(supply_spec(s, account, asset, amount)->Ok_0, account, asset, amount)
            == Ok::<PoolState, PoolError>(s),
{
    let s1 = supply_spec(s, account, asset, amount)->Ok_0;
    let a = s.accounts[account as int];
    let a1 = s1.accounts[account as int];
    assert(a1.debt == a.debt);
    let s2 = withdraw_spec(s1, account, asset, amount)->Ok_0;
    assert(s2.accounts[account as int].collateral =~= a.collateral);
    assert(s2.accounts =~= s.accounts);
    assert(s2.reserves =~= s.reserves);
}

/// Lowering the price of an asset that an account does not owe never raises its health factor.
pub proof fn law_lower_price_never_raises_health(
    s: PoolState,
    asset: usize,
    price: u128,
    account: usize,
)
    requires
        s.wf(),
        set_price_spec(s, asset, price) is Ok,
        price <= s.reserves[asset as int].price,
        account < s.accounts.len(),
        s.accounts[account as int].debt[asset as int] == 0,
    ensures
        health_factor(set_price_spec(s, asset, price)->Ok_0.reserves, s.accounts[account as int])
            <= health_factor(s.reserves, s.accounts[account as int]),
{
    let s2 = set_price_spec(s, asset, price)->Ok_0;
    let a = s.accounts[account as int];
    assert(account_fits_reserves(s.reserves, a));
    let n = s.reserves.len() as int;
    lemma_sums_lower_price(s.reserves, s2.reserves, a.collateral, asset as int, n);
    lemma_sums_lower_price(s.reserves, s2.reserves, a.debt, asset as int, n);
    let td = total_debt(s.reserves, a);
    let t1 = threshold_collateral(s.reserves, a);
    let t2 = threshold_collateral(s2.reserves, a);
    if td > 0 {
        assert(t2 * (WAD as nat) / td <= t1 * (WAD as nat) / td) by (nonlinear_arith)
            requires
                t2 <= t1,
                td > 0,
        {
            assert(t2 * (WAD as nat) <= t1 * (WAD as nat));
        }
    }
}

/// Sums under a lower price of one asset: no larger, and equal where that asset's balance is zero.
proof fn lemma_sums_lower_price(
    rs1: Seq<Reserve>,
    rs2: Seq<Reserve>,
    bal: Seq<u128>,
    i: int,
    n: int,
)
    requires
        0 <= i < rs1.len(),
        rs2 == rs1.update(
            i,
            Reserve {
                params: rs1[i].params,
                price: rs2[i].price,
                liquidity: rs1[i].liquidity,
                deficit: rs1[i].deficit,
            },
        ),
        rs2[i].price <= rs1[i].price,
        n <= rs1.len(),
        bal.len() == rs1.len(),
    ensures
        sum_scaled(rs2, bal, n, true) <= sum_scaled(rs1, bal, n, true),
        bal[i] == 0 ==> sum_value(rs2, bal, n) == sum_value(rs1, bal, n),
    decreases n,
{
    if n > 0 {
        lemma_sums_lower_price(rs1, rs2, bal, i, n - 1);
        let j = n - 1;
        if j == i {
            let p = rs1[i].params;
            lemma_value_monotone_price(
                bal[i] as nat,
                rs2[i].price as nat,
                rs1[i].price as nat,
                p.decimals as nat,
            );
            lemma_bps_monotone_value(
                asset_value(rs2[i], bal[i]),
                asset_value(rs1[i], bal[i]),
                p.liquidation_threshold as nat,
            );
            if bal[i] == 0 {
                lemma_pow10_monotone(0, p.decimals as nat);
                assert(asset_value(rs1[i], bal[i]) == 0);
                assert(asset_value(rs2[i], bal[i]) == 0);
            }
        }
    }
}

} // verus!
