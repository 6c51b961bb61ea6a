//! Accounting core of a decentralized organization: a lazy, cumulative
//! reward-distribution ledger and the validation rules of its governance
//! controller.
//!
//! Rewards are tracked with one global index per asset. A distribution moves
//! only that index; what a member is owed is settled against the member's own
//! sync point whenever its weight changes or it claims.
//!
//! The ledger is specified by a mathematical model (`model`), an invariant of
//! that model (`wellformed`, `preservation`) and laws proved of it (`laws`).
//! The executable ledger (`state` and the modules of its operations) is
//! proved to do what the model says.

// fixed-point arithmetic
pub mod decimal;

// the ledger as a mathematical object
pub mod keyed;
pub mod sums;
pub mod model;
pub mod wellformed;
pub mod preservation;
pub mod laws;

// the ledger in memory and its operations
pub mod error;
pub mod asset;
pub mod api;
pub mod msg;
pub mod state;
pub mod settle;
pub mod distribute;
pub mod weights;
pub mod claim;
pub mod query;
pub mod contract;

// the governance controller's checks
pub mod governance;
pub mod faults;
pub mod validate;
