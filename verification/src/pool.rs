//! The lending pool: listing reserves, supplying, borrowing, withdrawing and liquidating.

use vstd::prelude::*;

use crate::math::{
    apply_bps, bps_of, ceil_mul_div, ceil_mul_div_u128, lemma_ceil_mul_div_le, pow10, pow10_u128,
    value_in_base, value_of, BPS,
    FULL_CLOSE_FACTOR, PARTIAL_CLOSE_FACTOR, PARTIAL_LIQUIDATION_THRESHOLD, WAD,
};
use crate::position::{
    account_fits_reserves, borrowing_power, compute_account_data, data_fits, has_debt,
    health_factor, reserves_wf, total_debt, Account, AccountData, AccountState, PoolError, Reserve,
    ReserveParams,
};

verus! {

/// The abstract state of the pool.
pub struct PoolState {
    pub reserves: Seq<Reserve>,
    pub accounts: Seq<AccountState>,
}

impl PoolState {
    /// Every reserve is valid and every account has one balance of each kind per reserve.
    pub open spec fn wf(self) -> bool {
        &&& reserves_wf(self.reserves)
        &&& forall|k: int|
            0 <= k < self.accounts.len() ==> account_fits_reserves(
                self.reserves,
                #[trigger] self.accounts[k],
            )
    }

    /// This state with reserve `i` replaced.
    pub open spec fn with_reserve(self, i: int, r: Reserve) -> PoolState {
        PoolState { reserves: self.reserves.update(i, r), accounts: self.accounts }
    }

    /// This state with account `k` replaced.
    pub open spec fn with_account(self, k: int, a: AccountState) -> PoolState {
        PoolState { reserves: self.reserves, accounts: self.accounts.update(k, a) }
    }
}

/// A reserve with its liquidity changed.
pub open spec fn with_liquidity(r: Reserve, liquidity: int) -> Reserve {
    Reserve { params: r.params, price: r.price, liquidity: liquidity as u128, deficit: r.deficit }
}

/// An account with one collateral balance changed.
pub open spec fn set_collateral(a: AccountState, i: int, v: int) -> AccountState {
    AccountState { collateral: a.collateral.update(i, v as u128), debt: a.debt }
}

/// An account with one debt balance changed.
pub open spec fn set_debt(a: AccountState, i: int, v: int) -> AccountState {
    AccountState { collateral: a.collateral, debt: a.debt.update(i, v as u128) }
}

/// A lending pool holding reserves and the accounts of its users.
pub struct Pool {
    reserves: Vec<Reserve>,
    accounts: Vec<Account>,
}

impl View for Pool {
    type V = PoolState;

    closed spec fn view(&self) -> PoolState {
        PoolState {
            reserves: self.reserves@,
            accounts: self.accounts@.map_values(|a: Account| a@),
        }
    }
}

/// Result of listing a reserve.
pub open spec fn init_reserve_spec(s: PoolState, params: ReserveParams, price: u128) -> Result<
    PoolState,
    PoolError,
> {
    if !params.valid() {
        Err(PoolError::InvalidParams)
    } else if price == 0 {
        Err(PoolError::InvalidPrice)
    } else {
        Ok(
            PoolState {
                reserves: s.reserves.push(
                    Reserve { params, price, liquidity: 0, deficit: 0 },
                ),
                accounts: s.accounts.map_values(
                    |a: AccountState|
                        AccountState { collateral: a.collateral.push(0), debt: a.debt.push(0) },
                ),
            },
        )
    }
}

/// Result of setting the price of a reserve.
pub open spec fn set_price_spec(s: PoolState, asset: usize, price: u128) -> Result<
    PoolState,
    PoolError,
> {
    if asset >= s.reserves.len() {
        Err(PoolError::UnknownAsset)
    } else if price == 0 {
        Err(PoolError::InvalidPrice)
    } else {
        let r = s.reserves[asset as int];
        Ok(
            s.with_reserve(
                asset as int,
                Reserve { params: r.params, price, liquidity: r.liquidity, deficit: r.deficit },
            ),
        )
    }
}

/// Result of supplying `amount` tokens of `asset` as collateral of `account`.
pub open spec fn supply_spec(s: PoolState, account: usize, asset: usize, amount: u128) -> Result<
    PoolState,
    PoolError,
> {
    if asset >= s.reserves.len() {
        Err(PoolError::UnknownAsset)
    } else if account >= s.accounts.len() {
        Err(PoolError::UnknownAccount)
    } else if amount == 0 {
        Err(PoolError::InvalidAmount)
    } else {
        let r = s.reserves[asset as int];
        let a = s.accounts[account as int];
        if a.collateral[asset as int] + amount > u128::MAX || r.liquidity + amount > u128::MAX {
            Err(PoolError::MathOverflow)
        } else {
            Ok(
                s.with_reserve(asset as int, with_liquidity(r, r.liquidity + amount)).with_account(
                    account as int,
                    set_collateral(a, asset as int, a.collateral[asset as int] + amount),
                ),
            )
        }
    }
}


/// Result of `account` borrowing `amount` tokens of `asset`.
pub open spec fn borrow_spec(s: PoolState, account: usize, asset: usize, amount: u128) -> Result<
    PoolState,
    PoolError,
> {
    if asset >= s.reserves.len() {
        Err(PoolError::UnknownAsset)
    } else if account >= s.accounts.len() {
        Err(PoolError::UnknownAccount)
    } else if amount == 0 {
        Err(PoolError::InvalidAmount)
    } else {
        let r = s.reserves[asset as int];
        let a = s.accounts[account as int];
        if !r.params.borrowing_enabled {
            Err(PoolError::BorrowingDisabled)
        } else if amount > r.liquidity {
            Err(PoolError::InsufficientLiquidity)
        } else if a.debt[asset as int] + amount > u128::MAX {
            Err(PoolError::MathOverflow)
        } else {
            let a2 = set_debt(a, asset as int, a.debt[asset as int] + amount);
            if !data_fits(s.reserves, a2) {
                Err(PoolError::MathOverflow)
            } else if total_debt(s.reserves, a2) > borrowing_power(s.reserves, a2) {
                Err(PoolError::LtvExceeded)
            } else {
                Ok(
                    s.with_reserve(asset as int, with_liquidity(r, r.liquidity - amount)).with_account(
                        account as int,
                        a2,
                    ),
                )
            }
        }
    }
}

/// Result of `account` withdrawing `amount` tokens of its collateral in `asset`.
pub open spec fn withdraw_spec(s: PoolState, account: usize, asset: usize, amount: u128) -> Result<
    PoolState,
    PoolError,
> {
    if asset >= s.reserves.len() {
        Err(PoolError::UnknownAsset)
    } else if account >= s.accounts.len() {
        Err(PoolError::UnknownAccount)
    } else if amount == 0 {
        Err(PoolError::InvalidAmount)
    } else {
        let r = s.reserves[asset as int];
        let a = s.accounts[account as int];
        if amount > a.collateral[asset as int] {
            Err(PoolError::InsufficientCollateral)
        } else if amount > r.liquidity {
            Err(PoolError::InsufficientLiquidity)
        } else {
            let a2 = set_collateral(a, asset as int, a.collateral[asset as int] - amount);
            if has_debt(a) && !data_fits(s.reserves, a2) {
                Err(PoolError::MathOverflow)
            } else if has_debt(a) && health_factor(s.reserves, a2) < WAD {
                Err(PoolError::HealthFactorTooLow)
            } else {
                Ok(
                    s.with_reserve(asset as int, with_liquidity(r, r.liquidity - amount)).with_account(
                        account as int,
                        a2,
                    ),
                )
            }
        }
    }
}

/// What one liquidation leg did.
#[derive(Debug, Clone, Copy, PartialEq, Eq, Structural)]
pub struct LiquidationOutcome {
    /// Debt tokens the liquidator paid into the debt reserve.
    pub debt_repaid: u128,
    /// Collateral tokens taken from the user.
    pub collateral_seized: u128,
    /// Debt tokens burned from the user into the debt reserve's deficit.
    pub debt_written_off: u128,
    /// The selected collateral could not cover the requested leg.
    pub collateral_cap_triggered: bool,
}

/// Share of an asset's debt one leg may repay, in basis points, at health factor `hf`.
pub open spec fn close_factor(hf: nat) -> nat {
    if hf < PARTIAL_LIQUIDATION_THRESHOLD {
        FULL_CLOSE_FACTOR as nat
    } else {
        PARTIAL_CLOSE_FACTOR as nat
    }
}

/// The most of `debt` one leg may repay at health factor `hf`.
pub open spec fn max_repayable(debt: nat, hf: nat) -> nat {
    debt * close_factor(hf) / (BPS as nat)
}

/// The base-currency value of `dtc` debt tokens plus the collateral reserve's bonus.
pub open spec fn bonus_value(rd: Reserve, rc: Reserve, dtc: nat) -> nat {
    bps_of(
        value_of(dtc, rd.price as nat, rd.params.decimals as nat),
        (BPS + rc.params.liquidation_bonus) as nat,
    )
}

/// Collateral tokens, in the collateral reserve, worth `dtc` debt tokens plus the bonus.
pub open spec fn collateral_for(rd: Reserve, rc: Reserve, dtc: nat) -> nat {
    bonus_value(rd, rc, dtc) * pow10(rc.params.decimals as nat) / (rc.price as nat)
}

/// Every intermediate value of [`collateral_for`] fits in a `u128`.
pub open spec fn collateral_for_fits(rd: Reserve, rc: Reserve, dtc: nat) -> bool {
    &&& dtc * rd.price <= u128::MAX
    &&& value_of(dtc, rd.price as nat, rd.params.decimals as nat) * (BPS
        + rc.params.liquidation_bonus) <= u128::MAX
    &&& bonus_value(rd, rc, dtc) * pow10(rc.params.decimals as nat) <= u128::MAX
}

/// The leg that repays `dtc` of a debt of `debt` against a collateral balance `held`: when the
/// collateral worth the request exceeds `held`, all of `held` is seized, the repayment is scaled
/// down to `ceil(dtc * held / wanted)`, and the rest of the debt is written off.
pub open spec fn leg(rd: Reserve, rc: Reserve, held: nat, debt: nat, dtc: nat) -> LiquidationOutcome {
    let wanted = collateral_for(rd, rc, dtc);
    let cap = wanted > held;
    let repaid = if cap {
        ceil_mul_div(dtc, held, wanted)
    } else {
        dtc
    };
    LiquidationOutcome {
        debt_repaid: repaid as u128,
        collateral_seized: (if cap {
            held
        } else {
            wanted
        }) as u128,
        debt_written_off: (if cap {
            debt - repaid
        } else {
            0
        }) as u128,
        collateral_cap_triggered: cap,
    }
}

/// Result of `liquidator` repaying `debt_to_cover` of `user`'s debt in `debt_asset` against
/// `user`'s collateral in `collateral_asset`; the seized collateral leaves the pool, or, with
/// `receive_a_token`, is credited to the liquidator's collateral.
pub open spec fn liquidation_spec(
    s: PoolState,
    liquidator: usize,
    collateral_asset: usize,
    debt_asset: usize,
    user: usize,
    debt_to_cover: u128,
    receive_a_token: bool,
) -> Result<(PoolState, LiquidationOutcome), PoolError> {
    let c = collateral_asset as int;
    let d = debt_asset as int;
    if collateral_asset >= s.reserves.len() || debt_asset >= s.reserves.len() {
        Err(PoolError::UnknownAsset)
    } else if user >= s.accounts.len() || liquidator >= s.accounts.len() {
        Err(PoolError::UnknownAccount)
    } else if debt_to_cover == 0 {
        Err(PoolError::InvalidAmount)
    } else {
        let rs = s.reserves;
        let a = s.accounts[user as int];
        let hf = health_factor(rs, a);
        let rd = rs[d];
        let rc = rs[c];
        let held = a.collateral[c];
        let debt = a.debt[d];
        let wanted = collateral_for(rd, rc, debt_to_cover as nat);
        if !data_fits(rs, a) {
            Err(PoolError::MathOverflow)
        } else if hf >= WAD {
            Err(PoolError::NotLiquidatable)
        } else if debt == 0 {
            Err(PoolError::NoDebt)
        } else if held == 0 {
            Err(PoolError::NoCollateral)
        } else if debt_to_cover > max_repayable(debt as nat, hf) {
            Err(PoolError::CloseFactorExceeded)
        } else if !collateral_for_fits(rd, rc, debt_to_cover as nat) {
            Err(PoolError::MathOverflow)
        } else if wanted > held && debt_to_cover * held + wanted - 1 > u128::MAX {
            Err(PoolError::MathOverflow)
        } else {
            let o = leg(rd, rc, held as nat, debt as nat, debt_to_cover as nat);
            if rd.liquidity + o.debt_repaid > u128::MAX || rd.deficit + o.debt_written_off
                > u128::MAX {
                Err(PoolError::MathOverflow)
            } else {
                let rd2 = Reserve {
                    params: rd.params,
                    price: rd.price,
                    liquidity: (rd.liquidity + o.debt_repaid) as u128,
                    deficit: (rd.deficit + o.debt_written_off) as u128,
                };
                let s1 = s.with_reserve(d, rd2);
                let a2 = set_debt(
                    set_collateral(a, c, held - o.collateral_seized),
                    d,
                    debt - o.debt_repaid - o.debt_written_off,
                );
                let s2 = s1.with_account(user as int, a2);
                if receive_a_token {
                    let la = s2.accounts[liquidator as int];
                    if la.collateral[c] + o.collateral_seized > u128::MAX {
                        Err(PoolError::MathOverflow)
                    } else {
                        Ok(
                            (
                                s2.with_account(
                                    liquidator as int,
                                    set_collateral(la, c, la.collateral[c] + o.collateral_seized),
                                ),
                                o,
                            ),
                        )
                    }
                } else {
                    let rc1 = s2.reserves[c];
                    if rc1.liquidity < o.collateral_seized {
                        Err(PoolError::InsufficientLiquidity)
                    } else {
                        Ok(
                            (
                                s2.with_reserve(
                                    c,
                                    with_liquidity(rc1, rc1.liquidity - o.collateral_seized),
                                ),
                                o,
                            ),
                        )
                    }
                }
            }
        }
    }
}

impl Pool {
    /// The pool's invariant.
    pub open spec fn wf(&self) -> bool {
        self@.wf()
    }

    proof fn lemma_view_accounts(&self)
        ensures
            self@.accounts.len() == self.accounts@.len(),
            forall|k: int|
                0 <= k < self.accounts@.len() ==> #[trigger] self@.accounts[k]
                    == self.accounts@[k]@,
    {
    }

    /// A pool with no reserves and no accounts.
    pub fn new() -> (p: Pool)
        ensures
            p.wf(),
            p@.reserves.len() == 0,
            p@.accounts.len() == 0,
    {
        Pool { reserves: Vec::new(), accounts: Vec::new() }
    }

    /// Opens an account that holds and owes nothing; returns its index.
    pub fn open_account(&mut self) -> (id: usize)
        requires
            old(self).wf(),
        ensures
            final(self).wf(),
            id == old(self)@.accounts.len(),
            final(self)@.reserves == old(self)@.reserves,
            final(self)@.accounts == old(self)@.accounts.push(
                AccountState {
                    collateral: Seq::new(old(self)@.reserves.len(), |i: int| 0u128),
                    debt: Seq::new(old(self)@.reserves.len(), |i: int| 0u128),
                },
            ),
    {
        let id = self.accounts.len();
        let a = Account::empty(self.reserves.len());
        self.accounts.push(a);
        assert(self@.accounts =~= old(self)@.accounts.push(a@));
        id
    }

    /// Lists a new reserve at `price`, with no liquidity and no deficit; every account gets
    /// zero balances in it. Returns the new reserve's index.
    pub fn init_reserve(&mut self, params: ReserveParams, price: u128) -> (r: Result<usize, PoolError>)
        requires
            old(self).wf(),
        ensures
            final(self).wf(),
            match init_reserve_spec(old(self)@, params, price) {
                Ok(s) => r == Ok::<usize, PoolError>(old(self)@.reserves.len() as usize) && final(self)@ == s,
                Err(e) => r == Err::<usize, PoolError>(e) && final(self)@ == old(self)@,
            },
    {
        if !params.is_valid() {
            return Err(PoolError::InvalidParams);
        }
        if price == 0 {
            return Err(PoolError::InvalidPrice);
        }
        let ghost old_accounts = self@.accounts;
        let id = self.reserves.len();
        self.reserves.push(Reserve { params, price, liquidity: 0, deficit: 0 });
        let mut k: usize = 0;
        while k < self.accounts.len()
            invariant
                k <= self.accounts.len(),
                self.accounts@.len() == old_accounts.len(),
                self.reserves@ == old(self)@.reserves.push(
                    Reserve { params, price, liquidity: 0, deficit: 0 },
                ),
                reserves_wf(self.reserves@),
                forall|j: int|
                    0 <= j < k ==> #[trigger] self.accounts@[j]@ == (AccountState {
                        collateral: old_accounts[j].collateral.push(0),
                        debt: old_accounts[j].debt.push(0),
                    }),
                forall|j: int| k <= j < self.accounts@.len() ==> #[trigger] self.accounts@[j]@ == old_accounts[j],
                forall|j: int|
                    0 <= j < old_accounts.len() ==> account_fits_reserves(
                        old(self)@.reserves,
                        #[trigger] old_accounts[j],
                    ),
            decreases self.accounts.len() - k,
        {
            let wide = self.accounts[k].widened();
            self.accounts.set(k, wide);
            k = k + 1;
        }
        assert(self@.accounts =~= old_accounts.map_values(
            |a: AccountState| AccountState { collateral: a.collateral.push(0), debt: a.debt.push(0) },
        ));
        Ok(id)
    }

    /// Sets the oracle price of a reserve.
    pub fn set_asset_price(&mut self, asset: usize, price: u128) -> (r: Result<(), PoolError>)
        requires
            old(self).wf(),
        ensures
            final(self).wf(),
            match set_price_spec(old(self)@, asset, price) {
                Ok(s) => r is Ok && final(self)@ == s,
                Err(e) => r == Err::<(), PoolError>(e) && final(self)@ == old(self)@,
            },
    {
        if asset >= self.reserves.len() {
            return Err(PoolError::UnknownAsset);
        }
        if price == 0 {
            return Err(PoolError::InvalidPrice);
        }
        let old_r = self.reserves[asset];
        self.reserves.set(
            asset,
            Reserve { params: old_r.params, price, liquidity: old_r.liquidity, deficit: old_r.deficit },
        );
        assert(self@.reserves =~= set_price_spec(old(self)@, asset, price)->Ok_0.reserves);
        Ok(())
    }

    /// Supplies `amount` tokens of `asset` as collateral of `account`.
    pub fn supply(&mut self, account: usize, asset: usize, amount: u128) -> (r: Result<(), PoolError>)
        requires
            old(self).wf(),
        ensures
            final(self).wf(),
            match supply_spec(old(self)@, account, asset, amount) {
                Ok(s) => r is Ok && final(self)@ == s,
                Err(e) => r == Err::<(), PoolError>(e) && final(self)@ == old(self)@,
            },
    {
        if asset >= self.reserves.len() {
            return Err(PoolError::UnknownAsset);
        }
        if account >= self.accounts.len() {
            return Err(PoolError::UnknownAccount);
        }
        if amount == 0 {
            return Err(PoolError::InvalidAmount);
        }
        proof {
            self.lemma_view_accounts();
        }
        let r = self.reserves[asset];
        let held = self.accounts[account].collateral_of(asset);
        if held > u128::MAX - amount || r.liquidity > u128::MAX - amount {
            return Err(PoolError::MathOverflow);
        }
        let a2 = self.accounts[account].with_collateral(asset, held + amount);
        self.reserves.set(
            asset,
            Reserve { params: r.params, price: r.price, liquidity: r.liquidity + amount, deficit: r.deficit },
        );
        self.accounts.set(account, a2);
        proof {
            let s = supply_spec(old(self)@, account, asset, amount)->Ok_0;
            assert(self@.accounts =~= s.accounts);
            assert(self@.reserves =~= s.reserves);
        }
        Ok(())
    }
    /// The valuation of an account.
    pub fn get_user_account_data(&self, account: usize) -> (r: Result<AccountData, PoolError>)
        requires
            self.wf(),
        ensures
            account >= self@.accounts.len() ==> r == Err::<AccountData, PoolError>(
                PoolError::UnknownAccount,
            ),
            account < self@.accounts.len() ==> {
                &&& r is Ok <==> data_fits(self@.reserves, self@.accounts[account as int])
                &&& r matches Ok(d) ==> d.describes(self@.reserves, self@.accounts[account as int])
                &&& r matches Err(e) ==> e == PoolError::MathOverflow
            },
    {
        if account >= self.accounts.len() {
            return Err(PoolError::UnknownAccount);
        }
        proof {
            self.lemma_view_accounts();
            assert(account_fits_reserves(self@.reserves, self@.accounts[account as int]));
        }
        compute_account_data(&self.reserves, &self.accounts[account])
    }

    /// The debt of a reserve written off as unrecoverable.
    pub fn get_reserve_deficit(&self, asset: usize) -> (r: Result<u128, PoolError>)
        ensures
            asset >= self@.reserves.len() ==> r == Err::<u128, PoolError>(PoolError::UnknownAsset),
            asset < self@.reserves.len() ==> r == Ok::<u128, PoolError>(
                self@.reserves[asset as int].deficit,
            ),
    {
        if asset >= self.reserves.len() {
            return Err(PoolError::UnknownAsset);
        }
        Ok(self.reserves[asset].deficit)
    }

    /// The underlying tokens a reserve holds.
    pub fn get_reserve_liquidity(&self, asset: usize) -> (r: Result<u128, PoolError>)
        ensures
            asset >= self@.reserves.len() ==> r == Err::<u128, PoolError>(PoolError::UnknownAsset),
            asset < self@.reserves.len() ==> r == Ok::<u128, PoolError>(
                self@.reserves[asset as int].liquidity,
            ),
    {
        if asset >= self.reserves.len() {
            return Err(PoolError::UnknownAsset);
        }
        Ok(self.reserves[asset].liquidity)
    }

    /// The collateral an account holds in a reserve.
    pub fn collateral_balance(&self, account: usize, asset: usize) -> (r: Result<u128, PoolError>)
        requires
            self.wf(),
        ensures
            asset >= self@.reserves.len() ==> r == Err::<u128, PoolError>(PoolError::UnknownAsset),
            asset < self@.reserves.len() && account >= self@.accounts.len() ==> r == Err::<
                u128,
                PoolError,
            >(PoolError::UnknownAccount),
            asset < self@.reserves.len() && account < self@.accounts.len() ==> r == Ok::<
                u128,
                PoolError,
            >(self@.accounts[account as int].collateral[asset as int]),
    {
        if asset >= self.reserves.len() {
            return Err(PoolError::UnknownAsset);
        }
        if account >= self.accounts.len() {
            return Err(PoolError::UnknownAccount);
        }
        proof {
            self.lemma_view_accounts();
            assert(account_fits_reserves(self@.reserves, self@.accounts[account as int]));
        }
        Ok(self.accounts[account].collateral_of(asset))
    }

    /// The debt an account owes to a reserve.
    pub fn debt_balance(&self, account: usize, asset: usize) -> (r: Result<u128, PoolError>)
        requires
            self.wf(),
        ensures
            asset >= self@.reserves.len() ==> r == Err::<u128, PoolError>(PoolError::UnknownAsset),
            asset < self@.reserves.len() && account >= self@.accounts.len() ==> r == Err::<
                u128,
                PoolError,
            >(PoolError::UnknownAccount),
            asset < self@.reserves.len() && account < self@.accounts.len() ==> r == Ok::<
                u128,
                PoolError,
            >(self@.accounts[account as int].debt[asset as int]),
    {
        if asset >= self.reserves.len() {
            return Err(PoolError::UnknownAsset);
        }
        if account >= self.accounts.len() {
            return Err(PoolError::UnknownAccount);
        }
        proof {
            self.lemma_view_accounts();
            assert(account_fits_reserves(self@.reserves, self@.accounts[account as int]));
        }
        Ok(self.accounts[account].debt_of(asset))
    }

    /// `account` borrows `amount` tokens of `asset` against its collateral.
    pub fn borrow(&mut self, account: usize, asset: usize, amount: u128) -> (r: Result<(), PoolError>)
        requires
            old(self).wf(),
        ensures
            final(self).wf(),
            match borrow_spec(old(self)@, account, asset, amount) {
                Ok(s) => r is Ok && final(self)@ == s,
                Err(e) => r == Err::<(), PoolError>(e) && final(self)@ == old(self)@,
            },
    {
        if asset >= self.reserves.len() {
            return Err(PoolError::UnknownAsset);
        }
        if account >= self.accounts.len() {
            return Err(PoolError::UnknownAccount);
        }
        if amount == 0 {
            return Err(PoolError::InvalidAmount);
        }
        proof {
            self.lemma_view_accounts();
        }
        let r = self.reserves[asset];
        if !r.params.borrowing_enabled {
            return Err(PoolError::BorrowingDisabled);
        }
        if amount > r.liquidity {
            return Err(PoolError::InsufficientLiquidity);
        }
        let owed = self.accounts[account].debt_of(asset);
        if owed > u128::MAX - amount {
            return Err(PoolError::MathOverflow);
        }
        let a2 = self.accounts[account].with_debt(asset, owed + amount);
        let data = match compute_account_data(&self.reserves, &a2) {
            Ok(d) => d,
            Err(e) => {
                return Err(e);
            },
        };
        if data.total_debt_base > data.borrowing_power_base {
            return Err(PoolError::LtvExceeded);
        }
        self.reserves.set(
            asset,
            Reserve { params: r.params, price: r.price, liquidity: r.liquidity - amount, deficit: r.deficit },
        );
        self.accounts.set(account, a2);
        proof {
            let s = borrow_spec(old(self)@, account, asset, amount)->Ok_0;
            assert(self@.accounts =~= s.accounts);
            assert(self@.reserves =~= s.reserves);
        }
        Ok(())
    }

    /// `account` withdraws `amount` tokens of its collateral in `asset`.
    pub fn withdraw(&mut self, account: usize, asset: usize, amount: u128) -> (r: Result<(), PoolError>)
        requires
            old(self).wf(),
        ensures
            final(self).wf(),
            match withdraw_spec(old(self)@, account, asset, amount) {
                Ok(s) => r is Ok && final(self)@ == s,
                Err(e) => r == Err::<(), PoolError>(e) && final(self)@ == old(self)@,
            },
    {
        if asset >= self.reserves.len() {
            return Err(PoolError::UnknownAsset);
        }
        if account >= self.accounts.len() {
            return Err(PoolError::UnknownAccount);
        }
        if amount == 0 {
            return Err(PoolError::InvalidAmount);
        }
        proof {
            self.lemma_view_accounts();
        }
        let r = self.reserves[asset];
        let held = self.accounts[account].collateral_of(asset);
        if amount > held {
            return Err(PoolError::InsufficientCollateral);
        }
        if amount > r.liquidity {
            return Err(PoolError::InsufficientLiquidity);
        }
        let a2 = self.accounts[account].with_collateral(asset, held - amount);
        if self.accounts[account].owes_anything() {
            let data = match compute_account_data(&self.reserves, &a2) {
                Ok(d) => d,
                Err(e) => {
                    return Err(e);
                },
            };
            if data.health_factor < WAD {
                return Err(PoolError::HealthFactorTooLow);
            }
        }
        self.reserves.set(
            asset,
            Reserve { params: r.params, price: r.price, liquidity: r.liquidity - amount, deficit: r.deficit },
        );
        self.accounts.set(account, a2);
        proof {
            let s = withdraw_spec(old(self)@, account, asset, amount)->Ok_0;
            assert(self@.accounts =~= s.accounts);
            assert(self@.reserves =~= s.reserves);
        }
        Ok(())
    }
    /// One liquidation leg: `liquidator` repays up to `debt_to_cover` of `user`'s debt in
    /// `debt_asset` and takes `user`'s collateral in `collateral_asset`, with the bonus.
    pub fn liquidation_call(
        &mut self,
        liquidator: usize,
        collateral_asset: usize,
        debt_asset: usize,
        user: usize,
        debt_to_cover: u128,
        receive_a_token: bool,
    ) -> (r: Result<LiquidationOutcome, PoolError>)
        requires
            old(self).wf(),
        ensures
            final(self).wf(),
            match liquidation_spec(
                old(self)@,
                liquidator,
                collateral_asset,
                debt_asset,
                user,
                debt_to_cover,
                receive_a_token,
            ) {
                Ok((s, o)) => r == Ok::<LiquidationOutcome, PoolError>(o) && final(self)@ == s,
                Err(e) => r == Err::<LiquidationOutcome, PoolError>(e) && final(self)@ == old(
                    self,
                )@,
            },
    {
        let c = collateral_asset;
        let d = debt_asset;
        if c >= self.reserves.len() || d >= self.reserves.len() {
            return Err(PoolError::UnknownAsset);
        }
        if user >= self.accounts.len() || liquidator >= self.accounts.len() {
            return Err(PoolError::UnknownAccount);
        }
        if debt_to_cover == 0 {
            return Err(PoolError::InvalidAmount);
        }
        proof {
            self.lemma_view_accounts();
            assert(account_fits_reserves(self@.reserves, self@.accounts[user as int]));
            assert(account_fits_reserves(self@.reserves, self@.accounts[liquidator as int]));
        }
        let data = match compute_account_data(&self.reserves, &self.accounts[user]) {
            Ok(v) => v,
            Err(e) => {
                return Err(e);
            },
        };
        if data.health_factor >= WAD {
            return Err(PoolError::NotLiquidatable);
        }
        let debt = self.accounts[user].debt_of(d);
        if debt == 0 {
            return Err(PoolError::NoDebt);
        }
        let held = self.accounts[user].collateral_of(c);
        if held == 0 {
            return Err(PoolError::NoCollateral);
        }
        let max = if data.health_factor < PARTIAL_LIQUIDATION_THRESHOLD {
            debt
        } else {
            debt / 2
        };
        proof {
            let hf = health_factor(self@.reserves, self@.accounts[user as int]);
            assert(debt * 10_000 / 10_000 == debt) by (nonlinear_arith);
            assert(debt * 5_000 / 10_000 == debt / 2) by (nonlinear_arith);
            assert(max == max_repayable(debt as nat, hf));
        }
        if debt_to_cover > max {
            return Err(PoolError::CloseFactorExceeded);
        }
        let rd = self.reserves[d];
        let rc = self.reserves[c];
        proof {
            assert(rd.params.valid());
            assert(rc.params.valid());
        }
        let dv = match value_in_base(debt_to_cover, rd.price, rd.params.decimals) {
            Some(v) => v,
            None => {
                return Err(PoolError::MathOverflow);
            },
        };
        let bv = match apply_bps(dv, BPS + rc.params.liquidation_bonus as u128) {
            Some(v) => v,
            None => {
                return Err(PoolError::MathOverflow);
            },
        };
        let scale = pow10_u128(rc.params.decimals);
        let scaled = match bv.checked_mul(scale) {
            Some(v) => v,
            None => {
                return Err(PoolError::MathOverflow);
            },
        };
        let wanted = scaled / rc.price;
        assert(wanted == collateral_for(rd, rc, debt_to_cover as nat));
        let cap = wanted > held;
        let repaid = if cap {
            match ceil_mul_div_u128(debt_to_cover, held, wanted) {
                Some(v) => v,
                None => {
                    return Err(PoolError::MathOverflow);
                },
            }
        } else {
            debt_to_cover
        };
        let seized = if cap {
            held
        } else {
            wanted
        };
        proof {
            if cap {
                lemma_ceil_mul_div_le(debt_to_cover as nat, held as nat, wanted as nat);
            }
        }
        let written_off = if cap {
            debt - repaid
        } else {
            0
        };
        let ghost o = leg(rd, rc, held as nat, debt as nat, debt_to_cover as nat);
        assert(o == LiquidationOutcome {
            debt_repaid: repaid,
            collateral_seized: seized,
            debt_written_off: written_off,
            collateral_cap_triggered: cap,
        });
        if rd.liquidity > u128::MAX - repaid || rd.deficit > u128::MAX - written_off {
            return Err(PoolError::MathOverflow);
        }
        let rd2 = Reserve {
            params: rd.params,
            price: rd.price,
            liquidity: rd.liquidity + repaid,
            deficit: rd.deficit + written_off,
        };
        if receive_a_token {
            let la_held = if liquidator == user {
                held - seized
            } else {
                self.accounts[liquidator].collateral_of(c)
            };
            if la_held > u128::MAX - seized {
                return Err(PoolError::MathOverflow);
            }
        } else {
            let rc1_liquidity = if c == d {
                rd2.liquidity
            } else {
                rc.liquidity
            };
            if rc1_liquidity < seized {
                return Err(PoolError::InsufficientLiquidity);
            }
        }
        self.reserves.set(d, rd2);
        if !receive_a_token {
            let rc1 = self.reserves[c];
            self.reserves.set(
                c,
                Reserve {
                    params: rc1.params,
                    price: rc1.price,
                    liquidity: rc1.liquidity - seized,
                    deficit: rc1.deficit,
                },
            );
        }
        let a1 = self.accounts[user].with_collateral(c, held - seized);
        let a2 = a1.with_debt(d, debt - repaid - written_off);
        self.accounts.set(user, a2);
        if receive_a_token {
            proof {
                self.lemma_view_accounts();
                assert(account_fits_reserves(self@.reserves, self@.accounts[liquidator as int]));
            }
            let la_held = self.accounts[liquidator].collateral_of(c);
            let la2 = self.accounts[liquidator].with_collateral(c, la_held + seized);
            self.accounts.set(liquidator, la2);
        }
        proof {
            let s = liquidation_spec(
                old(self)@,
                liquidator,
                collateral_asset,
                debt_asset,
                user,
                debt_to_cover,
                receive_a_token,
            )->Ok_0.0;
            assert(self@.accounts =~= s.accounts);
            assert(self@.reserves =~= s.reserves);
        }
        Ok(LiquidationOutcome {
            debt_repaid: repaid,
            collateral_seized: seized,
            debt_written_off: written_off,
            collateral_cap_triggered: cap,
        })
    }
}

} // verus!
