//! What can go wrong while a chain is built, parsed or used.
use vstd::prelude::*;

verus! {

/// Why a chain could not be built, read or used.
#[derive(Copy, Clone, Debug, PartialEq, Eq, Structural)]
pub enum TrustError {
    /// The root key is not listed in the key store.
    NoRootKeyTrust,
    /// A signature did not verify under the key that should have made it.
    InvalidSignature,
    /// The chain would hold more keys than `MAXCHAINLINKS`.
    MaxChainLengthExceeded,
    /// The bytes are not a serialized chain.
    InvalidTrustChain,
}

} // verus!
