use ring::rand::{SecureRandom, SystemRandom};
use trustchain::v3::{PublicKey, RootKeysStore, PUBLICKEYBYTES};

#[test]
fn keystore_should_find_test_key() {
    let rand = SystemRandom::new();
    let mut bytes = [0u8; PUBLICKEYBYTES];
    assert!(rand.fill(&mut bytes).is_ok());

    let key_opt = PublicKey::from_slice(&bytes);
    assert!(key_opt.is_some());

    let ks: Vec<PublicKey> = vec![key_opt.unwrap()];

    assert!(ks.contains_root_key(&bytes))
}

#[test]
fn keystore_compares_by_the_value_of_the_bytes() {
    let a = PublicKey::from_slice(&[1u8; 32]).unwrap();
    let b = PublicKey::from_slice(&[2u8; 32]).unwrap();
    let ks: Vec<PublicKey> = vec![a, b];
    assert!(ks.contains_root_key(&[1u8; 32]));
    assert!(ks.contains_root_key(&[2u8; 32]));
    assert!(!ks.contains_root_key(&[3u8; 32]));
    // a candidate of another width is no key of the store
    assert!(!ks.contains_root_key(&[1u8; 31]));
    assert!(!ks.contains_root_key(&[1u8; 33]));
    assert!(!ks.contains_root_key(&[]));
    // a difference in the last byte alone is a difference
    let mut almost = [2u8; 32];
    almost[31] = 3;
    assert!(!ks.contains_root_key(&almost));
    let empty: Vec<PublicKey> = Vec::new();
    assert!(!empty.contains_root_key(&[1u8; 32]));
}
