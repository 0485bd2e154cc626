//! Time-weighted stake accounting for the holders of assets, the reward
//! pools that are shared out by it, and the one-shot import of a legacy
//! ledger into that state.
//!
//! An account that holds an asset accrues weight: its balance times the
//! blocks for which it held it. The same weight is accrued a second time for
//! the asset as a whole, from the outstanding total. A claim pays an account
//! the share of the asset's reward pool that its weight is of the asset's
//! weight.
//!
//! - [`accrual`] brings a weight up to the current block.
//! - [`store`] holds the records, [`assets`] the balances.
//! - [`tokens`] settles the records whenever a balance changes.
//! - [`consistency`] states when the two views of an asset's weight agree,
//!   and [`audit`] checks it.
//! - [`claim`] pays out, [`funding`] values the assets and fills the pools.
//! - [`staking`] and [`pots`] are the validator side as the import sees it.
//! - [`genesis`] builds all of this from a snapshot.

pub mod primitives;
pub mod math;
pub mod lookup;
pub mod accrual;
pub mod assets;
pub mod store;
pub mod consistency;
pub mod tokens;
pub mod claim;
pub mod funding;
pub mod audit;
pub mod staking;
pub mod pots;
pub mod genesis;
