//! A staking ledger with time-proportional rewards drawn from a shared pool.
//!
//! The library holds the ledger's state and its transitions as verified
//! functions: staking (with compounding on re-stake), funding the reward pool,
//! partial and full withdrawal, and read-only queries. Each transition either
//! commits in full or leaves the state untouched, and returns a description of
//! the outbound transfer and the event for the host to carry out.
pub mod accrual;
pub mod laws;
pub mod ledger;
pub mod state;
pub mod types;
