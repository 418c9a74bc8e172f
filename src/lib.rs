//! Idempotent request handling for a newsletter backend: validated
//! idempotency keys, response snapshots, a saved-response store with an
//! atomic claim protocol, and the expiry sweep that bounds its growth.

pub mod key;
pub mod snapshot;
pub mod store;
pub mod laws;
pub mod gate;
pub mod newsletter;
pub mod email;
pub mod pages;
