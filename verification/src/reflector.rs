//! The price feed stand-in used when the pool is deployed for tests.

use vstd::prelude::*;

verus! {

/// The Soroban host environment, carried through unchanged.
#[verifier::external_type_specification]
#[verifier::external_body]
pub struct ExEnv(soroban_sdk::Env);

/// Number of decimals in which the reflector publishes prices.
pub const PRICE_DECIMALS: u32 = 14;

/// A reflector that only answers how many decimals its prices carry.
pub struct MockReflector;

impl MockReflector {
    /// Prices of this reflector carry fourteen decimals.
    pub fn decimals(_env: soroban_sdk::Env) -> (d: u32)
        ensures
            d == PRICE_DECIMALS,
    {
        PRICE_DECIMALS
    }
}

} // verus!
