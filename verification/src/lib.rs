//! Mirrors discussion threads of a guild into an ordered document of law
//! records: thread enumeration, incremental reconciliation, rendering of
//! messages as markup with cached name resolution, and vote tallying.
//!
//! The library fetches nothing itself. Where it needs something from the
//! remote source it says what (`Enumerator::request`, `Lookup`, a thread
//! handed back by `Reconciler::update`); the caller fetches it, hands it
//! in and asks again.

pub mod discord_structs;
pub mod markup;
pub mod net;
pub mod reconcile;
pub mod text;
pub mod threads;
pub mod votes;
