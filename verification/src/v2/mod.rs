//! Version 2 of the trust chain, the older wire format.
pub mod error;
pub mod parsers;
pub mod trust_chain;

pub use error::TrustError;
pub use parsers::{chain_for, public_key, signature, trust_chain};
pub use trust_chain::{
    detached_valid, RootKeysStore, TrustChain, MAXCHAINLINKS, PUBLICKEYBYTES, SIGNATUREBYTES,
    TC_V2_HEADER,
};
