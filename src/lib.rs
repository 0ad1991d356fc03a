//! Canister backends: a proposal registry with per-voter ballots, lazy
//! deadline evaluation and aggregated tallies, together with a per-caller
//! record store, a counter and a to-do list. Caller identity and the current
//! time are supplied by the host and passed in as plain values.

pub mod counter;
pub mod data_store;
pub mod identity;
pub mod keyed;
pub mod laws;
pub mod ledger;
pub mod proposal;
pub mod registry;
pub mod todo;

pub use counter::Counter;
pub use data_store::{Data, DataStore};
pub use identity::Identity;
pub use ledger::{Ledger, Tally, Vote};
pub use proposal::{decide_outcome, end_time_of, Proposal, ProposalStatus, ProposalView, NANOS_PER_SECOND};
pub use registry::ProposalRegistry;
pub use todo::{Todo, TodoList};
