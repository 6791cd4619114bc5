//! Epoch-boundary settlement engine for a proof-of-stake ledger node.
//!
//! Two subsystems share one hard problem: deriving a deterministic,
//! quorum-based decision from a voting-power-weighted validator set indexed
//! by epoch, then applying that decision with all-or-nothing side effects.
//!
//! - [`tally`] turns weighted votes into a tri-state outcome.
//! - [`ledger`] models token accounts and the escrow transfers that settle
//!   proposal funds, with total supply conserved.
//! - [`governance`] drives the once-per-epoch proposal lifecycle: tally,
//!   conditional code execution, fund disposition and event emission.
//! - [`validation`] checks signed validator-set-update vote extensions
//!   against the epoch-indexed snapshot.

pub mod governance;
pub mod ledger;
pub mod tally;
pub mod validation;
