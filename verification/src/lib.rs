//! An in-memory view of the live members of a distributed service, kept in
//! step with a hierarchical coordination store by a periodic reconciliation
//! cycle.
//!
//! The library holds the verified core: decoding a member node's JSON
//! payload, the membership store, and the reconciliation logic that applies
//! one cycle's listing and per-child fetch outcomes to the store.  The
//! surrounding process (connecting to the store, the polling thread, the
//! actual network reads) lives outside the library and hands plain values in.

pub mod decoder;
pub mod json;
pub mod poller;
pub mod reconcile;
pub mod record;
pub mod store;
