//! A verified model of the K2 lending pool's position accounting and of its
//! single-leg liquidation, including the branch taken when the selected
//! collateral asset cannot cover the requested leg.

pub mod reflector;
pub mod math;
pub mod position;
pub mod pool;
pub mod laws;
pub mod effects;
