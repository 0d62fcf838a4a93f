//! Reserves, positions, and the valuation of a position in the base currency.

use vstd::prelude::*;

use crate::math::{
    apply_bps, bps_of, lemma_bps_le, lemma_bps_monotone_factor, value_in_base, value_of, BPS,
    MAX_DECIMALS, WAD,
};

verus! {

/// Errors the pool answers a refused request with.
#[derive(Debug, Clone, Copy, PartialEq, Eq, Structural)]
pub enum PoolError {
    /// No reserve has this index.
    UnknownAsset,
    /// No account has this index.
    UnknownAccount,
    /// The reserve parameters are inconsistent.
    InvalidParams,
    /// A price of zero was given.
    InvalidPrice,
    /// An amount of zero was given.
    InvalidAmount,
    /// An intermediate value does not fit in a `u128`.
    MathOverflow,
    /// Borrowing is switched off for the reserve.
    BorrowingDisabled,
    /// The reserve does not hold enough of its asset.
    InsufficientLiquidity,
    /// The account does not hold that much collateral.
    InsufficientCollateral,
    /// The new debt would exceed the borrowing power of the collateral.
    LtvExceeded,
    /// The withdrawal would leave a debtor with a health factor below one.
    HealthFactorTooLow,
    /// The position's health factor is not below one.
    NotLiquidatable,
    /// The account owes nothing of the debt asset.
    NoDebt,
    /// The account holds nothing of the collateral asset.
    NoCollateral,
    /// The leg asks to repay more than the close factor allows.
    CloseFactorExceeded,
}

/// Parameters a reserve is initialised with.
#[derive(Debug, Clone, Copy, PartialEq, Eq, Structural)]
pub struct ReserveParams {
    pub decimals: u32,
    /// Loan-to-value, in basis points.
    pub ltv: u32,
    /// Liquidation threshold, in basis points.
    pub liquidation_threshold: u32,
    /// Liquidation bonus paid in collateral, in basis points.
    pub liquidation_bonus: u32,
    pub reserve_factor: u32,
    pub supply_cap: u128,
    pub borrow_cap: u128,
    pub borrowing_enabled: bool,
    pub flashloan_enabled: bool,
}

impl ReserveParams {
    /// The decimals have a scale that fits, and `ltv <= threshold <= 100%`, `bonus <= 100%`.
    pub open spec fn valid(self) -> bool {
        &&& self.decimals <= MAX_DECIMALS
        &&& self.ltv <= self.liquidation_threshold
        &&& self.liquidation_threshold <= BPS
        &&& self.liquidation_bonus <= BPS
    }

    /// Checks [`ReserveParams::valid`].
    pub fn is_valid(&self) -> (b: bool)
        ensures
            b == self.valid(),
    {
        self.decimals <= MAX_DECIMALS && self.ltv <= self.liquidation_threshold
            && self.liquidation_threshold as u128 <= BPS && self.liquidation_bonus as u128 <= BPS
    }
}

/// One listed asset: its parameters, its oracle price, the tokens it holds and its bad debt.
#[derive(Debug, Clone, Copy, PartialEq, Eq, Structural)]
pub struct Reserve {
    pub params: ReserveParams,
    /// Price of one whole token in the base currency, with the oracle's decimals.
    pub price: u128,
    /// Underlying tokens held by the reserve.
    pub liquidity: u128,
    /// Debt written off as unrecoverable, in underlying tokens.
    pub deficit: u128,
}

/// What one account holds and owes, indexed like the reserves.
pub struct AccountState {
    pub collateral: Seq<u128>,
    pub debt: Seq<u128>,
}

/// An account's balances in each reserve.
pub struct Account {
    collateral: Vec<u128>,
    debt: Vec<u128>,
}

impl View for Account {
    type V = AccountState;

    closed spec fn view(&self) -> AccountState {
        AccountState { collateral: self.collateral@, debt: self.debt@ }
    }
}

/// A copy of `src` with the entry at `idx` replaced by `val`.
fn copy_updated(src: &Vec<u128>, idx: usize, val: u128) -> (r: Vec<u128>)
    requires
        idx < src.len(),
    ensures
        r@ == src@.update(idx as int, val),
{
    let mut r: Vec<u128> = Vec::new();
    let mut j: usize = 0;
    while j < src.len()
        invariant
            j <= src.len(),
            idx < src.len(),
            r@ == src@.update(idx as int, val).take(j as int),
        decreases src.len() - j,
    {
        if j == idx {
            r.push(val);
        } else {
            r.push(src[j]);
        }
        j = j + 1;
        assert(r@ =~= src@.update(idx as int, val).take(j as int));
    }
    assert(r@ =~= src@.update(idx as int, val));
    r
}

/// A copy of `src` with a zero appended.
fn copy_pushed_zero(src: &Vec<u128>) -> (r: Vec<u128>)
    ensures
        r@ == src@.push(0),
{
    let mut r: Vec<u128> = Vec::new();
    let mut j: usize = 0;
    while j < src.len()
        invariant
            j <= src.len(),
            r@ == src@.take(j as int),
        decreases src.len() - j,
    {
        r.push(src[j]);
        j = j + 1;
        assert(r@ =~= src@.take(j as int));
    }
    assert(src@.take(src.len() as int) =~= src@);
    r.push(0);
    r
}

/// `n` zeros.
fn zeros(n: usize) -> (r: Vec<u128>)
    ensures
        r@ == Seq::new(n as nat, |i: int| 0u128),
{
    let mut r: Vec<u128> = Vec::new();
    let mut j: usize = 0;
    while j < n
        invariant
            j <= n,
            r@ == Seq::new(j as nat, |i: int| 0u128),
        decreases n - j,
    {
        r.push(0);
        j = j + 1;
        assert(r@ =~= Seq::new(j as nat, |i: int| 0u128));
    }
    r
}

/// The account owes something of some asset.
pub open spec fn has_debt(a: AccountState) -> bool {
    exists|j: int| 0 <= j < a.debt.len() && #[trigger] a.debt[j] > 0
}

impl Account {
    /// An account with nothing held and nothing owed in `n` reserves.
    pub(crate) fn empty(n: usize) -> (a: Account)
        ensures
            a@.collateral == Seq::new(n as nat, |i: int| 0u128),
            a@.debt == Seq::new(n as nat, |i: int| 0u128),
    {
        Account { collateral: zeros(n), debt: zeros(n) }
    }

    /// The collateral held in reserve `i`.
    pub(crate) fn collateral_of(&self, i: usize) -> (v: u128)
        requires
            i < self@.collateral.len(),
        ensures
            v == self@.collateral[i as int],
    {
        self.collateral[i]
    }

    /// The debt owed to reserve `i`.
    pub(crate) fn debt_of(&self, i: usize) -> (v: u128)
        requires
            i < self@.debt.len(),
        ensures
            v == self@.debt[i as int],
    {
        self.debt[i]
    }

    /// This account with its collateral in reserve `i` set to `v`.
    pub(crate) fn with_collateral(&self, i: usize, v: u128) -> (a: Account)
        requires
            i < self@.collateral.len(),
        ensures
            a@ == (AccountState { collateral: self@.collateral.update(i as int, v), debt: self@.debt }),
    {
        Account { collateral: copy_updated(&self.collateral, i, v), debt: copy_all(&self.debt) }
    }

    /// This account with its debt in reserve `i` set to `v`.
    pub(crate) fn with_debt(&self, i: usize, v: u128) -> (a: Account)
        requires
            i < self@.debt.len(),
        ensures
            a@ == (AccountState { collateral: self@.collateral, debt: self@.debt.update(i as int, v) }),
    {
        Account { collateral: copy_all(&self.collateral), debt: copy_updated(&self.debt, i, v) }
    }

    /// This account with one more reserve, in which it holds and owes nothing.
    pub(crate) fn widened(&self) -> (a: Account)
        ensures
            a@ == (AccountState { collateral: self@.collateral.push(0), debt: self@.debt.push(0) }),
    {
        Account { collateral: copy_pushed_zero(&self.collateral), debt: copy_pushed_zero(&self.debt) }
    }

    /// Whether the account owes anything.
    pub(crate) fn owes_anything(&self) -> (b: bool)
        ensures
            b == has_debt(self@),
    {
        let mut j: usize = 0;
        while j < self.debt.len()
            invariant
                j <= self.debt.len(),
                forall|k: int| 0 <= k < j ==> self@.debt[k] == 0,
            decreases self.debt.len() - j,
        {
            if self.debt[j] > 0 {
                assert(self@.debt[j as int] > 0);
                return true;
            }
            j = j + 1;
        }
        false
    }
}

/// A copy of `src`.
fn copy_all(src: &Vec<u128>) -> (r: Vec<u128>)
    ensures
        r@ == src@,
{
    let mut r: Vec<u128> = Vec::new();
    let mut j: usize = 0;
    while j < src.len()
        invariant
            j <= src.len(),
            r@ == src@.take(j as int),
        decreases src.len() - j,
    {
        r.push(src[j]);
        j = j + 1;
        assert(r@ =~= src@.take(j as int));
    }
    assert(src@.take(src.len() as int) =~= src@);
    r
}

/// Every reserve has valid parameters and a nonzero price.
pub open spec fn reserves_wf(rs: Seq<Reserve>) -> bool {
    forall|i: int| 0 <= i < rs.len() ==> #[trigger] rs[i].params.valid() && rs[i].price > 0
}

/// The account has one balance of each kind per reserve.
pub open spec fn account_fits_reserves(rs: Seq<Reserve>, a: AccountState) -> bool {
    a.collateral.len() == rs.len() && a.debt.len() == rs.len()
}

/// The base-currency value of `amount` tokens of the reserve.
pub open spec fn asset_value(r: Reserve, amount: u128) -> nat {
    value_of(amount as nat, r.price as nat, r.params.decimals as nat)
}

/// Sum of the values of the first `n` balances.
pub open spec fn sum_value(rs: Seq<Reserve>, bal: Seq<u128>, n: int) -> nat
    decreases n,
{
    if n <= 0 {
        0
    } else {
        sum_value(rs, bal, n - 1) + asset_value(rs[n - 1], bal[n - 1])
    }
}

/// Sum of the values of the first `n` balances, each scaled by its reserve's liquidation
/// threshold (`by_threshold`) or loan-to-value.
pub open spec fn sum_scaled(rs: Seq<Reserve>, bal: Seq<u128>, n: int, by_threshold: bool) -> nat
    decreases n,
{
    if n <= 0 {
        0
    } else {
        let r = rs[n - 1];
        let factor = if by_threshold {
            r.params.liquidation_threshold
        } else {
            r.params.ltv
        };
        sum_scaled(rs, bal, n - 1, by_threshold) + bps_of(asset_value(r, bal[n - 1]), factor as nat)
    }
}

/// Value of all collateral of the account.
pub open spec fn total_collateral(rs: Seq<Reserve>, a: AccountState) -> nat {
    sum_value(rs, a.collateral, rs.len() as int)
}

/// Value of all debt of the account.
pub open spec fn total_debt(rs: Seq<Reserve>, a: AccountState) -> nat {
    sum_value(rs, a.debt, rs.len() as int)
}

/// Collateral value weighted by the liquidation thresholds.
pub open spec fn threshold_collateral(rs: Seq<Reserve>, a: AccountState) -> nat {
    sum_scaled(rs, a.collateral, rs.len() as int, true)
}

/// Collateral value weighted by the loan-to-value ratios: the most the account may owe.
pub open spec fn borrowing_power(rs: Seq<Reserve>, a: AccountState) -> nat {
    sum_scaled(rs, a.collateral, rs.len() as int, false)
}

/// The health factor in WAD: threshold-weighted collateral over debt, or `u128::MAX` without debt.
pub open spec fn health_factor(rs: Seq<Reserve>, a: AccountState) -> nat {
    if total_debt(rs, a) == 0 {
        u128::MAX as nat
    } else {
        threshold_collateral(rs, a) * (WAD as nat) / total_debt(rs, a)
    }
}

/// The per-reserve products of the valuation fit in a `u128`.
pub open spec fn products_fit(rs: Seq<Reserve>, a: AccountState, j: int) -> bool {
    &&& a.collateral[j] * rs[j].price <= u128::MAX
    &&& asset_value(rs[j], a.collateral[j]) * rs[j].params.liquidation_threshold <= u128::MAX
    &&& a.debt[j] * rs[j].price <= u128::MAX
}

/// Every intermediate value of the valuation of the account fits in a `u128`.
pub open spec fn data_fits(rs: Seq<Reserve>, a: AccountState) -> bool {
    &&& forall|j: int| 0 <= j < rs.len() ==> #[trigger] products_fit(rs, a, j)
    &&& total_collateral(rs, a) <= u128::MAX
    &&& total_debt(rs, a) <= u128::MAX
    &&& total_debt(rs, a) > 0 ==> threshold_collateral(rs, a) * WAD <= u128::MAX
}

/// The two reserve lists agree on everything the valuation reads.
pub open spec fn same_valuation(rs1: Seq<Reserve>, rs2: Seq<Reserve>) -> bool {
    &&& rs1.len() == rs2.len()
    &&& forall|i: int|
        0 <= i < rs1.len() ==> #[trigger] rs1[i].params == rs2[i].params && rs1[i].price
            == rs2[i].price
}

proof fn lemma_sums_ignore_liquidity(rs1: Seq<Reserve>, rs2: Seq<Reserve>, bal: Seq<u128>, n: int)
    requires
        same_valuation(rs1, rs2),
        n <= rs1.len(),
    ensures
        sum_value(rs1, bal, n) == sum_value(rs2, bal, n),
        sum_scaled(rs1, bal, n, true) == sum_scaled(rs2, bal, n, true),
        sum_scaled(rs1, bal, n, false) == sum_scaled(rs2, bal, n, false),
    decreases n,
{
    if n > 0 {
        lemma_sums_ignore_liquidity(rs1, rs2, bal, n - 1);
        assert(rs1[n - 1].params == rs2[n - 1].params);
    }
}

/// The valuation of an account reads only the reserves' parameters and prices.
pub proof fn lemma_valuation_ignores_liquidity(rs1: Seq<Reserve>, rs2: Seq<Reserve>, a: AccountState)
    requires
        same_valuation(rs1, rs2),
    ensures
        data_fits(rs1, a) == data_fits(rs2, a),
        total_collateral(rs1, a) == total_collateral(rs2, a),
        total_debt(rs1, a) == total_debt(rs2, a),
        threshold_collateral(rs1, a) == threshold_collateral(rs2, a),
        borrowing_power(rs1, a) == borrowing_power(rs2, a),
        health_factor(rs1, a) == health_factor(rs2, a),
{
    lemma_sums_ignore_liquidity(rs1, rs2, a.collateral, rs1.len() as int);
    lemma_sums_ignore_liquidity(rs1, rs2, a.debt, rs1.len() as int);
    assert forall|j: int| 0 <= j < rs1.len() implies products_fit(rs1, a, j) == products_fit(
        rs2,
        a,
        j,
    ) by {
        assert(rs1[j].params == rs2[j].params);
    }
}

/// The valuation of a position.
#[derive(Debug, Clone, Copy, PartialEq, Eq, Structural)]
pub struct AccountData {
    pub total_collateral_base: u128,
    pub total_debt_base: u128,
    pub threshold_collateral_base: u128,
    pub borrowing_power_base: u128,
    pub health_factor: u128,
}

impl AccountData {
    /// This valuation is the one of the account `a` under the reserves `rs`.
    pub open spec fn describes(self, rs: Seq<Reserve>, a: AccountState) -> bool {
        &&& self.total_collateral_base == total_collateral(rs, a)
        &&& self.total_debt_base == total_debt(rs, a)
        &&& self.threshold_collateral_base == threshold_collateral(rs, a)
        &&& self.borrowing_power_base == borrowing_power(rs, a)
        &&& self.health_factor == health_factor(rs, a)
    }
}

/// Sums over more balances are no smaller.
pub proof fn lemma_sum_value_monotone(rs: Seq<Reserve>, bal: Seq<u128>, m: int, n: int)
    requires
        0 <= m <= n,
    ensures
        sum_value(rs, bal, m) <= sum_value(rs, bal, n),
    decreases n - m,
{
    if m < n {
        lemma_sum_value_monotone(rs, bal, m, n - 1);
    }
}

/// With valid parameters, `loan-to-value sum <= threshold sum <= value sum`.
pub proof fn lemma_scaled_le_value(rs: Seq<Reserve>, bal: Seq<u128>, n: int)
    requires
        reserves_wf(rs),
        n <= rs.len(),
    ensures
        sum_scaled(rs, bal, n, false) <= sum_scaled(rs, bal, n, true),
        sum_scaled(rs, bal, n, true) <= sum_value(rs, bal, n),
    decreases n,
{
    if n > 0 {
        lemma_scaled_le_value(rs, bal, n - 1);
        let r = rs[n - 1];
        assert(r.params.valid());
        let v = asset_value(r, bal[n - 1]);
        lemma_bps_le(v, r.params.liquidation_threshold as nat);
        lemma_bps_monotone_factor(v, r.params.ltv as nat, r.params.liquidation_threshold as nat);
    }
}

/// Values an account: `Ok` exactly when every intermediate value fits in a `u128`.
pub fn compute_account_data(rs: &Vec<Reserve>, a: &Account) -> (r: Result<AccountData, PoolError>)
    requires
        reserves_wf(rs@),
        account_fits_reserves(rs@, a@),
    ensures
        r is Ok <==> data_fits(rs@, a@),
        r matches Ok(d) ==> d.describes(rs@, a@),
        r matches Err(e) ==> e == PoolError::MathOverflow,
{
    let n = rs.len();
    let mut tc: u128 = 0;
    let mut tt: u128 = 0;
    let mut tl: u128 = 0;
    let mut td: u128 = 0;
    let mut i: usize = 0;
    while i < n
        invariant
            n == rs@.len(),
            reserves_wf(rs@),
            account_fits_reserves(rs@, a@),
            0 <= i <= n,
            tc == sum_value(rs@, a@.collateral, i as int),
            td == sum_value(rs@, a@.debt, i as int),
            tt == sum_scaled(rs@, a@.collateral, i as int, true),
            tl == sum_scaled(rs@, a@.collateral, i as int, false),
            forall|j: int| 0 <= j < i ==> #[trigger] products_fit(rs@, a@, j),
        decreases n - i,
    {
        let r = rs[i];
        proof {
            assert(r.params.valid());
            lemma_scaled_le_value(rs@, a@.collateral, i as int);
        }
        let cv = match value_in_base(a.collateral[i], r.price, r.params.decimals) {
            Some(v) => v,
            None => {
                assert(!products_fit(rs@, a@, i as int));
                return Err(PoolError::MathOverflow);
            },
        };
        let ct = match apply_bps(cv, r.params.liquidation_threshold as u128) {
            Some(v) => v,
            None => {
                assert(!products_fit(rs@, a@, i as int));
                return Err(PoolError::MathOverflow);
            },
        };
        proof {
            lemma_bps_le(cv as nat, r.params.liquidation_threshold as nat);
            lemma_bps_monotone_factor(
                cv as nat,
                r.params.ltv as nat,
                r.params.liquidation_threshold as nat,
            );
        }
        let cl = cv * (r.params.ltv as u128) / BPS;
        let dv = match value_in_base(a.debt[i], r.price, r.params.decimals) {
            Some(v) => v,
            None => {
                assert(!products_fit(rs@, a@, i as int));
                return Err(PoolError::MathOverflow);
            },
        };
        assert(products_fit(rs@, a@, i as int));
        tc = match tc.checked_add(cv) {
            Some(v) => v,
            None => {
                proof {
                    lemma_sum_value_monotone(rs@, a@.collateral, i + 1, n as int);
                }
                return Err(PoolError::MathOverflow);
            },
        };
        td = match td.checked_add(dv) {
            Some(v) => v,
            None => {
                proof {
                    lemma_sum_value_monotone(rs@, a@.debt, i + 1, n as int);
                }
                return Err(PoolError::MathOverflow);
            },
        };
        proof {
            lemma_scaled_le_value(rs@, a@.collateral, i + 1);
        }
        tt = tt + ct;
        tl = tl + cl;
        i = i + 1;
    }
    let hf = if td == 0 {
        u128::MAX
    } else {
        match tt.checked_mul(WAD) {
            Some(v) => v / td,
            None => {
                return Err(PoolError::MathOverflow);
            },
        }
    };
    Ok(
        AccountData {
            total_collateral_base: tc,
            total_debt_base: td,
            threshold_collateral_base: tt,
            borrowing_power_base: tl,
            health_factor: hf,
        },
    )
}

} // verus!
