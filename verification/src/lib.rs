//! Bounded incremental updates of a Cargo.lock file.
//!
//! Given a lockfile and a soft limit `N`, a full `cargo update` is attempted
//! first; if it would change more than `N` packages, the lockfile is reverted
//! and the originally-observed changed packages are re-applied one at a time,
//! in sorted order, until the cumulative change count reaches `N`.
//!
//! This library holds the data model and every decision of that algorithm.
//! Running `cargo`, `git` and the filesystem is left to the binary around it,
//! which feeds observed lockfile snapshots back into the [`engine::Engine`]
//! state machine and carries out the actions it returns.

pub mod engine;
pub mod lockfile;
pub mod order;
pub mod package;
pub mod snapshot;
pub mod vcs;
