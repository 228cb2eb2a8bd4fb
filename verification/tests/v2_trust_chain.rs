use sodiumoxide::crypto::sign::ed25519;
use trustchain::v3::{PublicKey, Signature};
use trustchain::v2::TrustChain;

fn gen_keypair() -> (PublicKey, ed25519::SecretKey) {
    let (pkey, skey) = ed25519::gen_keypair();
    (PublicKey::from_slice(&pkey.0).unwrap(), skey)
}

fn sign_detached(m: &[u8], skey: &ed25519::SecretKey) -> Signature {
    Signature::from_slice(&ed25519::sign_detached(m, skey).0).unwrap()
}

#[test]
fn root_only_chain_construction () {
    let (pkey, _skey) = gen_keypair();
    let root_key_store = Box::new(vec![pkey]);
    let chain = TrustChain::root_only_chain(pkey, root_key_store);
    assert!(chain.is_ok());
}

#[test]
fn two_link_chain_construction () {
    let (root_pkey, root_skey) = gen_keypair();
    let (end_pkey, _end_skey) = gen_keypair();
    let root_key_store = Box::new(vec![root_pkey]);
    let sig = sign_detached(end_pkey.as_ref(), &root_skey);

    let chain = TrustChain::two_link_chain(
        root_pkey,
        end_pkey,
        sig,
        root_key_store
    );
    assert!(chain.is_ok());
}

#[test]
fn three_link_chain_construction () {
    let (root_pkey, root_skey) = gen_keypair();
    let (intr_pkey, intr_skey) = gen_keypair();
    let (end_pkey, _end_skey) = gen_keypair();
    let root_key_store = Box::new(vec![root_pkey]);
    let root_sig = sign_detached(intr_pkey.as_ref(), &root_skey);
    let intr_sig = sign_detached(end_pkey.as_ref(), &intr_skey);

    let chain = TrustChain::three_link_chain(
        root_pkey,
        intr_pkey,
        end_pkey,
        root_sig,
        intr_sig,
        root_key_store
    );
    assert!(chain.is_ok());
}

#[test]
fn four_link_chain_construction () {
    let (root_pkey, root_skey) = gen_keypair();
    let (intr1_pkey, intr1_skey) = gen_keypair();
    let (intr2_pkey, intr2_skey) = gen_keypair();
    let (end_pkey, _end_skey) = gen_keypair();
    let root_key_store = Box::new(vec![root_pkey]);
    let root_sig = sign_detached(intr1_pkey.as_ref(), &root_skey);
    let intr1_sig = sign_detached(intr2_pkey.as_ref(), &intr1_skey);
    let intr2_sig = sign_detached(end_pkey.as_ref(), &intr2_skey);

    let chain = TrustChain::four_link_chain(
        root_pkey,
        intr1_pkey,
        intr2_pkey,
        end_pkey,
        root_sig,
        intr1_sig,
        intr2_sig,
        root_key_store
    );
    assert!(chain.is_ok());
}

#[test]
fn five_link_chain_construction () {
    let (root_pkey, root_skey) = gen_keypair();
    let (intr1_pkey, intr1_skey) = gen_keypair();
    let (intr2_pkey, intr2_skey) = gen_keypair();
    let (intr3_pkey, intr3_skey) = gen_keypair();
    let (end_pkey, _end_skey) = gen_keypair();
    let root_key_store = Box::new(vec![root_pkey]);
    let root_sig = sign_detached(intr1_pkey.as_ref(), &root_skey);
    let intr1_sig = sign_detached(intr2_pkey.as_ref(), &intr1_skey);
    let intr2_sig = sign_detached(intr3_pkey.as_ref(), &intr2_skey);
    let intr3_sig = sign_detached(end_pkey.as_ref(), &intr3_skey);

    let chain = TrustChain::five_link_chain(
        root_pkey,
        intr1_pkey,
        intr2_pkey,
        intr3_pkey,
        end_pkey,
        root_sig,
        intr1_sig,
        intr2_sig,
        intr3_sig,
        root_key_store
    );
    assert!(chain.is_ok());
}
