//! Bounded Ed25519 trust chains.
//!
//! A trust chain is a short sequence of public keys. The first one, the root,
//! is trusted because a caller-supplied key store lists it; every later key is
//! vouched for by a detached signature made with the key before it. The last
//! key of a chain can then be used to check signatures over arbitrary data.
//!
//! Two wire formats exist. [`v2`] is the older one, [`v3`] the current one,
//! which also defines the calendar dates and validity windows of the library.
pub mod v2;
pub mod v3;
