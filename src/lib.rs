//! Per-guild module (feature flag) bookkeeping for a chat bot: which optional
//! modules each guild has enabled, how persisted enablement rows are repaired
//! when they drift, and which commands a guild should see as a result.

pub mod id;
pub mod modules;
pub mod reconcile;
pub mod settings;
pub mod store;
pub mod laws;
