use ring::rand::{SecureRandom, SystemRandom};
use ring::signature;
use ring::signature::KeyPair;
use trustchain::v3::{
    trust_chain_v3, Link, PublicKey, Root, Signature, TrustChain, PUBLICKEYBYTES,
};

fn gen_keypair(rand: &dyn SecureRandom) -> Option<signature::Ed25519KeyPair> {
    let mut seed = [0u8; PUBLICKEYBYTES];
    rand.fill(&mut seed)
        .ok()
        .and_then(|_| signature::Ed25519KeyPair::from_seed_unchecked(&seed).ok())
}

fn sign(keypair: &signature::Ed25519KeyPair, data: &[u8]) -> Option<Signature> {
    Signature::from_slice(keypair.sign(data).as_ref())
}

#[test]
fn trust_chain_root_only_chain_construction() {
    let rand = SystemRandom::new();
    let keypair = gen_keypair(&rand).unwrap();
    let pkey = PublicKey::from_slice(keypair.public_key().as_ref());

    assert!(pkey.is_some());

    let root = pkey.unwrap();
    let root_key_store = vec![root];
    let chain = TrustChain::new(&root_key_store, Root::new(root));

    assert!(chain.is_ok(), "{:?}", chain);

    let chain = trust_chain_v3(&root_key_store, Root::new(root), &[]);

    assert!(chain.is_ok(), "{:?}", chain);
}

#[test]
fn trust_chain_two_link_chain_construction() {
    let rand = SystemRandom::new();
    let root_keypair = gen_keypair(&rand).unwrap();
    let end_keypair = gen_keypair(&rand).unwrap();
    let root_pkey = PublicKey::from_slice(root_keypair.public_key().as_ref());
    let end_pkey = PublicKey::from_slice(end_keypair.public_key().as_ref());

    assert!(root_pkey.is_some());
    assert!(end_pkey.is_some());

    let root = root_pkey.unwrap();
    let end = end_pkey.unwrap();
    let root_key_store = vec![root];
    let sig = sign(&root_keypair, end.as_ref());

    assert!(sig.is_some());

    let link1 = Link::new(end, sig.unwrap());
    let chain = trust_chain_v3(&root_key_store, Root::new(root), &[link1]);

    assert!(chain.is_ok(), "{:?}", chain);
}

#[test]
fn trust_chain_three_link_chain_construction() {
    let rand = SystemRandom::new();
    let root_keypair = gen_keypair(&rand).unwrap();
    let intr_keypair = gen_keypair(&rand).unwrap();
    let end_keypair = gen_keypair(&rand).unwrap();
    let root_pkey = PublicKey::from_slice(root_keypair.public_key().as_ref());
    let intr_pkey = PublicKey::from_slice(intr_keypair.public_key().as_ref());
    let end_pkey = PublicKey::from_slice(end_keypair.public_key().as_ref());

    assert!(root_pkey.is_some());
    assert!(intr_pkey.is_some());
    assert!(end_pkey.is_some());

    let root = root_pkey.unwrap();
    let intr = intr_pkey.unwrap();
    let end = end_pkey.unwrap();
    let root_key_store = vec![root];
    let root_sig = sign(&root_keypair, intr.as_ref());
    let intr_sig = sign(&intr_keypair, end.as_ref());

    assert!(root_sig.is_some());
    assert!(intr_sig.is_some());

    let link1 = Link::new(intr, root_sig.unwrap());
    let link2 = Link::new(end, intr_sig.unwrap());
    let chain = trust_chain_v3(&root_key_store, Root::new(root), &[link1, link2]);

    assert!(chain.is_ok(), "{:?}", chain);

    let broken_chain = trust_chain_v3(&root_key_store, Root::new(root), &[link2, link1]);

    assert!(broken_chain.is_err(), "{:?}", broken_chain);
}
