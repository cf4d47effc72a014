//! A verified settlement engine: replays a stream of ledger events
//! (deposit, withdrawal, dispute, resolve, chargeback) against per-client
//! account state and produces the final balance of every account.
//!
//! The transition rules are written once as a pure specification
//! ([`model`]); the executable engine ([`engine`]) is proved to compute
//! exactly what that specification says, and the global guarantees of the
//! rules (balance invariants, monotonic locking, the no-op guards) are
//! proved in [`laws`].

pub mod amount;
pub mod engine;
pub mod laws;
pub mod model;
pub mod types;
