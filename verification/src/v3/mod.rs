//! Version 3 of the trust chain: keys, links, chains, dates and the wire format.
use vstd::prelude::*;

pub mod date;
pub mod error;
pub mod expiry;
pub mod hex;
pub mod key;
pub mod keystore;
pub mod link;
pub mod parsers;
pub mod signature;
pub mod trust_chain;

pub use date::{Date, DateError, Day, Month, Year};
pub use error::TrustError;
pub use expiry::{Expiry, NotAfter, NotBefore};
pub use key::PublicKey;
pub use keystore::RootKeysStore;
pub use link::{Expire, Key, Link, Position, Root, Signed, TrustLink};
pub use parsers::{chain_length, trust_chain, trust_chain_with_expiry};
pub use signature::Signature;
pub use trust_chain::{ed25519_valid, trust_chain_v3, TrustChain, TrustChainIterator};

verus! {

/// Width of an Ed25519 public key in bytes.
pub const PUBLICKEYBYTES: usize = 32;

/// Width of an Ed25519 signature in bytes.
pub const SIGNATUREBYTES: usize = 64;

/// The largest number of keys, root included, that a chain may hold.
pub const MAXCHAINLINKS: u8 = 5;

/// The four bytes every serialized chain of this version starts with:
/// `T`, `C`, then the version as a big-endian `u16`.
pub const TC_V3_HEADER: [u8; 4] = [0x54, 0x43, 0x00, 0x03];

} // verus!
