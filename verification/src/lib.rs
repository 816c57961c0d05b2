//! A pool of API credentials with stable per-caller assignment, a ledger of
//! the costs billed for them, and the decisions of the run that brings new
//! cost reports in from the provider's billing endpoint.

pub mod amount;
pub mod error;
pub mod fetch;
pub mod laws;
pub mod ledger;
pub mod manager;
pub mod pool;
pub mod refresh;
pub mod report;
pub mod seqs;
pub mod store;
pub mod text;
pub mod trusted;
pub mod workspaces;
