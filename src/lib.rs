//! Share-based token distribution: a registry of share allocations, the
//! computation of a proportional payout schedule, and the decisions of a
//! distribution run that pays each participant through a ledger service.
pub mod allocation_map;
pub mod canister;
pub mod distribution;
pub mod payout;
pub mod state;
pub mod types;
pub mod utils;
