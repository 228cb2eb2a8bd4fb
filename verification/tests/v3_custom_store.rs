use std::collections::HashSet;

use ring::signature::{Ed25519KeyPair, KeyPair};
use trustchain::v3::{
    trust_chain, trust_chain_v3, Link, PublicKey, Root, RootKeysStore, Signature, TrustChain,
    TrustError,
};

/// A store that keeps the bytes of its keys in a hash set.
struct HashedStore {
    keys: HashSet<Vec<u8>>,
}

impl<'ks> RootKeysStore<'ks> for HashedStore {
    fn contains_root_key<'a>(&'ks self, candidate: &'a [u8]) -> bool {
        self.keys.contains(candidate)
    }
}

fn keypair(n: u8) -> Ed25519KeyPair {
    Ed25519KeyPair::from_seed_unchecked(&[n; 32]).unwrap()
}

fn public(pair: &Ed25519KeyPair) -> PublicKey {
    PublicKey::from_slice(pair.public_key().as_ref()).unwrap()
}

#[test]
fn a_store_of_the_callers_own_is_asked() {
    let root_pair = keypair(1);
    let end_pair = keypair(2);
    let root = Root::new(public(&root_pair));
    let end = public(&end_pair);
    let link = Link::new(
        end,
        Signature::from_slice(root_pair.sign(end.as_bytes()).as_ref()).unwrap(),
    );

    let mut keys = HashSet::new();
    keys.insert(root.key.as_bytes().to_vec());
    let trusting = HashedStore { keys };
    let empty = HashedStore { keys: HashSet::new() };

    let chain = trust_chain_v3(&trusting, root, &[link]).unwrap();
    assert_eq!(trust_chain(&chain.as_bytes(), &trusting), Ok(chain));
    assert_eq!(TrustChain::new(&empty, root), Err(TrustError::NoRootKeyTrust));
    assert_eq!(
        trust_chain(&chain.as_bytes(), &empty),
        Err(TrustError::NoRootKeyTrust)
    );
}

#[test]
fn a_store_behind_a_trait_object_is_asked() {
    let root_pair = keypair(1);
    let root = Root::new(public(&root_pair));
    let listed: Vec<PublicKey> = vec![root.key];
    let store: &dyn RootKeysStore = &listed;
    let chain = TrustChain::new(store, root).unwrap();
    assert_eq!(trust_chain(&chain.as_bytes(), store), Ok(chain));
    let nothing: Vec<PublicKey> = Vec::new();
    let store: &dyn RootKeysStore = &nothing;
    assert_eq!(TrustChain::new(store, root), Err(TrustError::NoRootKeyTrust));
}
