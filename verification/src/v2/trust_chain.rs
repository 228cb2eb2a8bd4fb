//! Trust chains of the older format: a trusted root key followed by at most
//! four further keys, each vouched for by the key before it.
use vstd::prelude::*;
use vstd::string::StringExecFns;
use crate::v2::error::TrustError;
use crate::v3::hex::{list, to_hex_list};
use crate::v3::key::PublicKey;
use crate::v3::keystore::bytes_equal;
use crate::v3::link::{push_all, Link};
use crate::v3::signature::Signature;
use crate::v3::trust_chain::{lemma_records_step, records};

verus! {

/// Width of an Ed25519 public key in bytes.
pub const PUBLICKEYBYTES: usize = 32;

/// Width of an Ed25519 signature in bytes.
pub const SIGNATUREBYTES: usize = 64;

/// The largest number of keys, root included, that a chain may hold.
pub const MAXCHAINLINKS: usize = 5;

/// The four bytes every serialized chain of this version starts with:
/// `T`, `C`, then the version as a big-endian `u16`.
pub const TC_V2_HEADER: [u8; 4] = [0x54, 0x43, 0x00, 0x02];

/// Whether `sig` is a detached Ed25519 signature over `msg` that verifies
/// under the public key `key`.
pub uninterp spec fn detached_valid(sig: Seq<u8>, msg: Seq<u8>, key: Seq<u8>) -> bool;

/// Ed25519 verification, done by
/// `sodiumoxide::crypto::sign::ed25519::verify_detached`. Nothing is proved of
/// it: the answer is taken to depend on the signature, the message and the
/// key alone, and `detached_valid` is the name of that answer.
#[verifier::external_body]
fn verify_detached(sig: &Signature, m: &[u8], pk: &PublicKey) -> (valid: bool)
    ensures
        valid == detached_valid(sig@, m@, pk@),
{
    sodiumoxide::crypto::sign::ed25519::verify_detached(
        &sodiumoxide::crypto::sign::ed25519::Signature(sig.to_array()),
        m,
        &sodiumoxide::crypto::sign::ed25519::PublicKey(pk.to_array()),
    )
}

/// A collection of trusted root keys. A chain asks it one question, once,
/// when the chain is created: is this key one of yours?
pub trait RootKeysStore {
    /// Whether the store lists a key with exactly the bytes `candidate`. A
    /// store that is verified says here what it lists; of any other store
    /// nothing more is known than that `contains_root_key` answers by it.
    open spec fn trusts(&self, candidate: Seq<u8>) -> bool {
        arbitrary()
    }

    /// Looks `candidate` up by the value of its bytes.
    fn contains_root_key(&self, candidate: &[u8]) -> (found: bool)
        ensures
            found == self.trusts(candidate@),
    ;
}

impl RootKeysStore for Vec<PublicKey> {
    open spec fn trusts(&self, candidate: Seq<u8>) -> bool {
        exists|i: int| 0 <= i < self@.len() && (#[trigger] self@[i])@ == candidate
    }

    fn contains_root_key(&self, candidate: &[u8]) -> (found: bool) {
        let mut i: usize = 0;
        while i < self.len()
            invariant
                i <= self.len(),
                forall|j: int| 0 <= j < i ==> (#[trigger] self@[j])@ != candidate@,
            decreases self.len() - i,
        {
            if bytes_equal(self[i].as_bytes(), candidate) {
                return true;
            }
            i += 1;
        }
        false
    }
}

/// A chain of one to five keys. The variant tells the length; each signature
/// is named after the key that made it and the key that it covers.
#[derive(Copy, Clone, Debug, PartialEq)]
pub enum TrustChain {
    RootOnlyChain { root_key: PublicKey },
    TwoLinkChain { root_key: PublicKey, end_key: PublicKey, root_sig_over_end_key: Signature },
    ThreeLinkChain {
        root_key: PublicKey,
        intermediate_key: PublicKey,
        end_key: PublicKey,
        root_sig_over_intermediate_key: Signature,
        intermediate_sig_over_end_key: Signature,
    },
    FourLinkChain {
        root_key: PublicKey,
        intermediate1_key: PublicKey,
        intermediate2_key: PublicKey,
        end_key: PublicKey,
        root_sig_over_intermediate1_key: Signature,
        intermediate1_sig_over_intermediate2_key: Signature,
        intermediate2_sig_over_end_key: Signature,
    },
    FiveLinkChain {
        root_key: PublicKey,
        intermediate1_key: PublicKey,
        intermediate2_key: PublicKey,
        intermediate3_key: PublicKey,
        end_key: PublicKey,
        root_sig_over_intermediate1_key: Signature,
        intermediate1_sig_over_intermediate2_key: Signature,
        intermediate2_sig_over_intermediate3_key: Signature,
        intermediate3_sig_over_end_key: Signature,
    },
}

/// A key and the signature that vouches for it, as one link.
pub open spec fn link(key: PublicKey, sig: Signature) -> Link {
    Link { key, sig, exp: None }
}

impl TrustChain {
    /// The key of the root.
    pub open spec fn root(self) -> PublicKey {
        match self {
            TrustChain::RootOnlyChain { root_key } => root_key,
            TrustChain::TwoLinkChain { root_key, .. } => root_key,
            TrustChain::ThreeLinkChain { root_key, .. } => root_key,
            TrustChain::FourLinkChain { root_key, .. } => root_key,
            TrustChain::FiveLinkChain { root_key, .. } => root_key,
        }
    }

    /// The keys after the root, in order, each with the signature that
    /// vouches for it.
    pub open spec fn links(self) -> Seq<Link> {
        match self {
            TrustChain::RootOnlyChain { .. } => seq![],
            TrustChain::TwoLinkChain { end_key, root_sig_over_end_key, .. } => seq![
                link(end_key, root_sig_over_end_key),
            ],
            TrustChain::ThreeLinkChain {
                intermediate_key,
                end_key,
                root_sig_over_intermediate_key,
                intermediate_sig_over_end_key,
                ..
            } => seq![
                link(intermediate_key, root_sig_over_intermediate_key),
                link(end_key, intermediate_sig_over_end_key),
            ],
            TrustChain::FourLinkChain {
                intermediate1_key,
                intermediate2_key,
                end_key,
                root_sig_over_intermediate1_key,
                intermediate1_sig_over_intermediate2_key,
                intermediate2_sig_over_end_key,
                ..
            } => seq![
                link(intermediate1_key, root_sig_over_intermediate1_key),
                link(intermediate2_key, intermediate1_sig_over_intermediate2_key),
                link(end_key, intermediate2_sig_over_end_key),
            ],
            TrustChain::FiveLinkChain {
                intermediate1_key,
                intermediate2_key,
                intermediate3_key,
                end_key,
                root_sig_over_intermediate1_key,
                intermediate1_sig_over_intermediate2_key,
                intermediate2_sig_over_intermediate3_key,
                intermediate3_sig_over_end_key,
                ..
            } => seq![
                link(intermediate1_key, root_sig_over_intermediate1_key),
                link(intermediate2_key, intermediate1_sig_over_intermediate2_key),
                link(intermediate3_key, intermediate2_sig_over_intermediate3_key),
                link(end_key, intermediate3_sig_over_end_key),
            ],
        }
    }

    /// The chain that starts at `root` and goes on with `links`, of which
    /// there are at most four.
    pub open spec fn of(root: PublicKey, links: Seq<Link>) -> TrustChain {
        if links.len() == 0 {
            TrustChain::RootOnlyChain { root_key: root }
        } else if links.len() == 1 {
            TrustChain::TwoLinkChain {
                root_key: root,
                end_key: links[0].key,
                root_sig_over_end_key: links[0].sig,
            }
        } else if links.len() == 2 {
            TrustChain::ThreeLinkChain {
                root_key: root,
                intermediate_key: links[0].key,
                end_key: links[1].key,
                root_sig_over_intermediate_key: links[0].sig,
                intermediate_sig_over_end_key: links[1].sig,
            }
        } else if links.len() == 3 {
            TrustChain::FourLinkChain {
                root_key: root,
                intermediate1_key: links[0].key,
                intermediate2_key: links[1].key,
                end_key: links[2].key,
                root_sig_over_intermediate1_key: links[0].sig,
                intermediate1_sig_over_intermediate2_key: links[1].sig,
                intermediate2_sig_over_end_key: links[2].sig,
            }
        } else {
            TrustChain::FiveLinkChain {
                root_key: root,
                intermediate1_key: links[0].key,
                intermediate2_key: links[1].key,
                intermediate3_key: links[2].key,
                end_key: links[3].key,
                root_sig_over_intermediate1_key: links[0].sig,
                intermediate1_sig_over_intermediate2_key: links[1].sig,
                intermediate2_sig_over_intermediate3_key: links[2].sig,
                intermediate3_sig_over_end_key: links[3].sig,
            }
        }
    }

    /// The number of keys in the chain, root included.
    pub open spec fn spec_len(self) -> nat {
        1 + self.links().len()
    }

    /// The key at position `i`, where the root is position 0.
    pub open spec fn key_at(self, i: int) -> PublicKey {
        if i <= 0 {
            self.root()
        } else {
            self.links()[i - 1].key
        }
    }

    /// The key of the last position: the one that signs for the holder of the chain.
    pub open spec fn spec_end_key(self) -> PublicKey {
        self.key_at(self.spec_len() - 1)
    }

    /// Whether link `i` is vouched for by the key of the position before it:
    /// its signature verifies over its key under that key.
    pub open spec fn link_verifies(self, i: int) -> bool {
        detached_valid(self.links()[i].sig@, self.links()[i].key@, self.key_at(i)@)
    }

    /// Whether every link is vouched for by the key of the position before it.
    pub open spec fn links_verify(self) -> bool {
        forall|i: int| 0 <= i < self.links().len() ==> #[trigger] self.link_verifies(i)
    }

    /// What `append` answers. A full chain takes no further key, whatever
    /// the key is; any other chain takes exactly the keys that its last key
    /// vouches for.
    pub open spec fn appended(self, new_end_key: PublicKey, new_end_sig: Signature) -> Result<
        TrustChain,
        TrustError,
    > {
        if self.spec_len() >= MAXCHAINLINKS {
            Err(TrustError::MaxChainLengthExceeded)
        } else if !detached_valid(new_end_sig@, new_end_key@, self.spec_end_key()@) {
            Err(TrustError::InvalidSignature)
        } else {
            Ok(TrustChain::of(self.root(), self.links().push(link(new_end_key, new_end_sig))))
        }
    }

    /// The serialized chain: the header, the key of the root, the number of
    /// keys after the root, then one record for each of them.
    pub open spec fn wire(self) -> Seq<u8> {
        TC_V2_HEADER@ + self.root()@ + seq![self.links().len() as u8] + records(self.links())
    }

    /// A chain is determined by its root and its links, of which there are
    /// at most four, none with a validity window.
    pub proof fn lemma_of_parts(self)
        ensures
            self == TrustChain::of(self.root(), self.links()),
            1 <= self.spec_len() <= MAXCHAINLINKS,
            forall|i: int| 0 <= i < self.links().len() ==> (#[trigger] self.links()[i]).exp is None,
    {
    }

    /// `of` puts the root and up to four links where `root` and `links` find them.
    pub proof fn lemma_parts_of(root: PublicKey, links: Seq<Link>)
        requires
            links.len() < MAXCHAINLINKS,
            forall|i: int| 0 <= i < links.len() ==> (#[trigger] links[i]).exp is None,
        ensures
            TrustChain::of(root, links).root() == root,
            TrustChain::of(root, links).links() == links,
    {
        assert(TrustChain::of(root, links).links() =~= links);
    }

    /// Starts a chain at `root_key`, if `root_key_store` lists it.
    pub fn root_only_chain<S: RootKeysStore + ?Sized>(root_key: PublicKey, root_key_store: Box<S>)
        -> (r: Result<TrustChain, TrustError>)
        ensures
            r == (if root_key_store.trusts(root_key@) {
                Ok(TrustChain::RootOnlyChain { root_key })
            } else {
                Err(TrustError::NoRootKeyTrust)
            }),
    {
        if !root_key_store.contains_root_key(root_key.as_bytes()) {
            return Err(TrustError::NoRootKeyTrust);
        }
        Ok(TrustChain::RootOnlyChain { root_key: root_key })
    }

    /// Builds a chain of two keys in one call.
    pub fn two_link_chain<S: RootKeysStore + ?Sized>(
        root_key: PublicKey,
        end_key: PublicKey,
        root_sig_over_end_key: Signature,
        root_key_store: Box<S>,
    ) -> (r: Result<TrustChain, TrustError>)
        ensures
            r == built(root_key_store.trusts(root_key@), root_key, seq![
                link(end_key, root_sig_over_end_key),
            ]),
            r matches Ok(chain) ==> chain.links_verify(),
    {
        proof {
            reveal_with_fuel(extended, 2);
        }
        let chain = match TrustChain::root_only_chain(root_key, root_key_store) {
            Ok(chain) => chain,
            Err(e) => return Err(e),
        };
        chain.append(end_key, root_sig_over_end_key)
    }

    /// Builds a chain of three keys in one call.
    pub fn three_link_chain<S: RootKeysStore + ?Sized>(
        root_key: PublicKey,
        intermediate_key: PublicKey,
        end_key: PublicKey,
        root_sig_over_intermediate_key: Signature,
        intermediate_sig_over_end_key: Signature,
        root_key_store: Box<S>,
    ) -> (r: Result<TrustChain, TrustError>)
        ensures
            r == built(root_key_store.trusts(root_key@), root_key, seq![
                link(intermediate_key, root_sig_over_intermediate_key),
                link(end_key, intermediate_sig_over_end_key),
            ]),
            r matches Ok(chain) ==> chain.links_verify(),
    {
        proof {
            reveal_with_fuel(extended, 3);
        }
        let chain = match TrustChain::root_only_chain(root_key, root_key_store) {
            Ok(chain) => chain,
            Err(e) => return Err(e),
        };
        let chain = match chain.append(intermediate_key, root_sig_over_intermediate_key) {
            Ok(chain) => chain,
            Err(e) => return Err(e),
        };
        chain.append(end_key, intermediate_sig_over_end_key)
    }

    /// Builds a chain of four keys in one call.
    pub fn four_link_chain<S: RootKeysStore + ?Sized>(
        root_key: PublicKey,
        intermediate1_key: PublicKey,
        intermediate2_key: PublicKey,
        end_key: PublicKey,
        root_sig_over_intermediate1_key: Signature,
        intermediate1_sig_over_intermediate2_key: Signature,
        intermediate2_sig_over_end_key: Signature,
        root_key_store: Box<S>,
    ) -> (r: Result<TrustChain, TrustError>)
        ensures
            r == built(root_key_store.trusts(root_key@), root_key, seq![
                link(intermediate1_key, root_sig_over_intermediate1_key),
                link(intermediate2_key, intermediate1_sig_over_intermediate2_key),
                link(end_key, intermediate2_sig_over_end_key),
            ]),
            r matches Ok(chain) ==> chain.links_verify(),
    {
        proof {
            reveal_with_fuel(extended, 4);
        }
        let chain = match TrustChain::root_only_chain(root_key, root_key_store) {
            Ok(chain) => chain,
            Err(e) => return Err(e),
        };
        let chain = match chain.append(intermediate1_key, root_sig_over_intermediate1_key) {
            Ok(chain) => chain,
            Err(e) => return Err(e),
        };
        let chain = match chain.append(intermediate2_key, intermediate1_sig_over_intermediate2_key) {
            Ok(chain) => chain,
            Err(e) => return Err(e),
        };
        chain.append(end_key, intermediate2_sig_over_end_key)
    }

    /// Builds a chain of five keys in one call.
    pub fn five_link_chain<S: RootKeysStore + ?Sized>(
        root_key: PublicKey,
        intermediate1_key: PublicKey,
        intermediate2_key: PublicKey,
        intermediate3_key: PublicKey,
        end_key: PublicKey,
        root_sig_over_intermediate1_key: Signature,
        intermediate1_sig_over_intermediate2_key: Signature,
        intermediate2_sig_over_intermediate3_key: Signature,
        intermediate3_sig_over_end_key: Signature,
        root_key_store: Box<S>,
    ) -> (r: Result<TrustChain, TrustError>)
        ensures
            r == built(root_key_store.trusts(root_key@), root_key, seq![
                link(intermediate1_key, root_sig_over_intermediate1_key),
                link(intermediate2_key, intermediate1_sig_over_intermediate2_key),
                link(intermediate3_key, intermediate2_sig_over_intermediate3_key),
                link(end_key, intermediate3_sig_over_end_key),
            ]),
            r matches Ok(chain) ==> chain.links_verify(),
    {
        proof {
            reveal_with_fuel(extended, 5);
        }
        let chain = match TrustChain::root_only_chain(root_key, root_key_store) {
            Ok(chain) => chain,
            Err(e) => return Err(e),
        };
        let chain = match chain.append(intermediate1_key, root_sig_over_intermediate1_key) {
            Ok(chain) => chain,
            Err(e) => return Err(e),
        };
        let chain = match chain.append(intermediate2_key, intermediate1_sig_over_intermediate2_key) {
            Ok(chain) => chain,
            Err(e) => return Err(e),
        };
        let chain = match chain.append(intermediate3_key, intermediate2_sig_over_intermediate3_key) {
            Ok(chain) => chain,
            Err(e) => return Err(e),
        };
        chain.append(end_key, intermediate3_sig_over_end_key)
    }

    /// Extends the chain by `new_end_key`, if the chain is not full and
    /// `new_end_sig` is its last key's signature over the new key.
    pub fn append(self, new_end_key: PublicKey, new_end_sig: Signature) -> (r: Result<
        TrustChain,
        TrustError,
    >)
        ensures
            r == self.appended(new_end_key, new_end_sig),
            r matches Ok(chain) ==> {
                &&& chain.root() == self.root()
                &&& chain.links() == self.links().push(link(new_end_key, new_end_sig))
                &&& self.links_verify() ==> chain.links_verify()
            },
    {
        let r = match self {
            TrustChain::RootOnlyChain { root_key } => {
                if !verify_detached(&new_end_sig, new_end_key.as_bytes(), &root_key) {
                    Err(TrustError::InvalidSignature)
                } else {
                    Ok(
                        TrustChain::TwoLinkChain {
                            root_key: root_key,
                            end_key: new_end_key,
                            root_sig_over_end_key: new_end_sig,
                        },
                    )
                }
            },
            TrustChain::TwoLinkChain { root_key, end_key, root_sig_over_end_key } => {
                if !verify_detached(&new_end_sig, new_end_key.as_bytes(), &end_key) {
                    Err(TrustError::InvalidSignature)
                } else {
                    Ok(
                        TrustChain::ThreeLinkChain {
                            root_key: root_key,
                            intermediate_key: end_key,
                            end_key: new_end_key,
                            root_sig_over_intermediate_key: root_sig_over_end_key,
                            intermediate_sig_over_end_key: new_end_sig,
                        },
                    )
                }
            },
            TrustChain::ThreeLinkChain {
                root_key,
                intermediate_key,
                end_key,
                root_sig_over_intermediate_key,
                intermediate_sig_over_end_key,
            } => {
                if !verify_detached(&new_end_sig, new_end_key.as_bytes(), &end_key) {
                    Err(TrustError::InvalidSignature)
                } else {
                    Ok(
                        TrustChain::FourLinkChain {
                            root_key: root_key,
                            intermediate1_key: intermediate_key,
                            intermediate2_key: end_key,
                            end_key: new_end_key,
                            root_sig_over_intermediate1_key: root_sig_over_intermediate_key,
                            intermediate1_sig_over_intermediate2_key: intermediate_sig_over_end_key,
                            intermediate2_sig_over_end_key: new_end_sig,
                        },
                    )
                }
            },
            TrustChain::FourLinkChain {
                root_key,
                intermediate1_key,
                intermediate2_key,
                end_key,
                root_sig_over_intermediate1_key,
                intermediate1_sig_over_intermediate2_key,
                intermediate2_sig_over_end_key,
            } => {
                if !verify_detached(&new_end_sig, new_end_key.as_bytes(), &end_key) {
                    Err(TrustError::InvalidSignature)
                } else {
                    Ok(
                        TrustChain::FiveLinkChain {
                            root_key: root_key,
                            intermediate1_key: intermediate1_key,
                            intermediate2_key: intermediate2_key,
                            intermediate3_key: end_key,
                            end_key: new_end_key,
                            root_sig_over_intermediate1_key: root_sig_over_intermediate1_key,
                            intermediate1_sig_over_intermediate2_key:
                                intermediate1_sig_over_intermediate2_key,
                            intermediate2_sig_over_intermediate3_key: intermediate2_sig_over_end_key,
                            intermediate3_sig_over_end_key: new_end_sig,
                        },
                    )
                }
            },
            TrustChain::FiveLinkChain { .. } => { Err(TrustError::MaxChainLengthExceeded) },
        };
        proof {
            if r is Ok {
                let chain = r.unwrap();
                assert(chain.links() =~= self.links().push(link(new_end_key, new_end_sig)));
                if self.links_verify() {
                    assert forall|i: int| 0 <= i < chain.links().len() implies #[trigger]
                        chain.link_verifies(i) by {
                        if i < self.links().len() {
                            assert(self.link_verifies(i));
                        }
                    }
                }
            }
        }
        r
    }

    /// The key of the last position.
    pub fn end_key(&self) -> (key: PublicKey)
        ensures
            key == self.spec_end_key(),
    {
        match self {
            TrustChain::RootOnlyChain { root_key: key, .. } => key.clone(),
            TrustChain::TwoLinkChain { end_key: key, .. } => key.clone(),
            TrustChain::ThreeLinkChain { end_key: key, .. } => key.clone(),
            TrustChain::FourLinkChain { end_key: key, .. } => key.clone(),
            TrustChain::FiveLinkChain { end_key: key, .. } => key.clone(),
        }
    }

    /// Checks `untrusted_signature` over `untrusted_data`, exactly as given,
    /// under the last key of the chain.
    pub fn verify_data(&self, untrusted_signature: &Signature, untrusted_data: &[u8]) -> (r: Result<
        (),
        TrustError,
    >)
        ensures
            r == (if detached_valid(
                untrusted_signature@,
                untrusted_data@,
                self.spec_end_key()@,
            ) {
                Ok(())
            } else {
                Err(TrustError::InvalidSignature)
            }),
    {
        if !verify_detached(untrusted_signature, untrusted_data, &self.end_key()) {
            return Err(TrustError::InvalidSignature);
        }
        Ok(())
    }

    /// The serialized chain as text: its bytes as a list of lowercase
    /// hexadecimal numbers, within `(` and `, )`.
    pub fn to_string(&self) -> (s: String)
        ensures
            s@ == seq!['('] + list(self.wire()) + seq![',', ' ', ')'],
    {
        proof {
            reveal_strlit("(");
            reveal_strlit(", )");
        }
        let bytes = self.as_bytes();
        let inner = to_hex_list(bytes.as_slice());
        let mut s = String::new();
        s.append("(");
        s.append(inner.as_str());
        s.append(", )");
        assert(s@ =~= seq!['('] + list(self.wire()) + seq![',', ' ', ')']);
        s
    }

    /// Serializes the chain.
    pub fn as_bytes(&self) -> (bytes: Vec<u8>)
        ensures
            bytes@ == self.wire(),
    {
        proof {
            self.lemma_wire_unrolled();
        }
        let mut v: Vec<u8> = Vec::new();
        push_all(&mut v, TC_V2_HEADER.as_slice());
        match self {
            TrustChain::RootOnlyChain { root_key } => {
                push_all(&mut v, root_key.as_bytes());
                v.push(0x00);
                assert(v@ =~= self.wire());
            },
            TrustChain::TwoLinkChain { root_key, end_key, root_sig_over_end_key } => {
                push_all(&mut v, root_key.as_bytes());
                v.push(0x01);
                push_record(&mut v, end_key, root_sig_over_end_key);
                assert(v@ =~= self.wire());
            },
            TrustChain::ThreeLinkChain {
                root_key,
                intermediate_key,
                end_key,
                root_sig_over_intermediate_key,
                intermediate_sig_over_end_key,
            } => {
                push_all(&mut v, root_key.as_bytes());
                v.push(0x02);
                push_record(&mut v, intermediate_key, root_sig_over_intermediate_key);
                push_record(&mut v, end_key, intermediate_sig_over_end_key);
                assert(v@ =~= self.wire());
            },
            TrustChain::FourLinkChain {
                root_key,
                intermediate1_key,
                intermediate2_key,
                end_key,
                root_sig_over_intermediate1_key,
                intermediate1_sig_over_intermediate2_key,
                intermediate2_sig_over_end_key,
            } => {
                push_all(&mut v, root_key.as_bytes());
                v.push(0x03);
                push_record(&mut v, intermediate1_key, root_sig_over_intermediate1_key);
                push_record(&mut v, intermediate2_key, intermediate1_sig_over_intermediate2_key);
                push_record(&mut v, end_key, intermediate2_sig_over_end_key);
                assert(v@ =~= self.wire());
            },
            TrustChain::FiveLinkChain {
                root_key,
                intermediate1_key,
                intermediate2_key,
                intermediate3_key,
                end_key,
                root_sig_over_intermediate1_key,
                intermediate1_sig_over_intermediate2_key,
                intermediate2_sig_over_intermediate3_key,
                intermediate3_sig_over_end_key,
            } => {
                push_all(&mut v, root_key.as_bytes());
                v.push(0x04);
                push_record(&mut v, intermediate1_key, root_sig_over_intermediate1_key);
                push_record(&mut v, intermediate2_key, intermediate1_sig_over_intermediate2_key);
                push_record(&mut v, intermediate3_key, intermediate2_sig_over_intermediate3_key);
                push_record(&mut v, end_key, intermediate3_sig_over_end_key);
                assert(v@ =~= self.wire());
            },
        }
        v
    }

    /// The serialized chain, written out record by record.
    proof fn lemma_wire_unrolled(self)
        ensures
            self.wire() == TC_V2_HEADER@ + self.root()@ + seq![self.links().len() as u8] + (
            if self.links().len() == 0 {
                Seq::<u8>::empty()
            } else if self.links().len() == 1 {
                self.links()[0].record()
            } else if self.links().len() == 2 {
                self.links()[0].record() + self.links()[1].record()
            } else if self.links().len() == 3 {
                self.links()[0].record() + self.links()[1].record() + self.links()[2].record()
            } else {
                self.links()[0].record() + self.links()[1].record() + self.links()[2].record()
                    + self.links()[3].record()
            }),
    {
        let links = self.links();
        self.lemma_of_parts();
        assert(links.take(0) =~= Seq::<Link>::empty());
        if links.len() > 0 {
            lemma_records_step(links, 0);
        }
        if links.len() > 1 {
            lemma_records_step(links, 1);
        }
        if links.len() > 2 {
            lemma_records_step(links, 2);
        }
        if links.len() > 3 {
            lemma_records_step(links, 3);
        }
        assert(links.take(links.len() as int) =~= links);
    }
}

/// Appends the record of one key after the root: the key, then the
/// signature that vouches for it.
fn push_record(out: &mut Vec<u8>, key: &PublicKey, sig: &Signature)
    ensures
        final(out)@ == old(out)@ + link(*key, *sig).record(),
{
    push_all(out, key.as_bytes());
    push_all(out, sig.as_bytes());
    assert(out@ =~= old(out)@ + link(*key, *sig).record());
}

/// A chain that took a key is the old chain with that key at its end, and
/// is vouched for link by link if the old chain was.
pub proof fn lemma_appended(chain: TrustChain, new_end_key: PublicKey, new_end_sig: Signature)
    ensures
        chain.appended(new_end_key, new_end_sig) matches Ok(longer) ==> {
            &&& longer.root() == chain.root()
            &&& longer.links() == chain.links().push(link(new_end_key, new_end_sig))
            &&& longer.spec_end_key() == new_end_key
            &&& chain.links_verify() ==> longer.links_verify()
        },
{
    if let Ok(longer) = chain.appended(new_end_key, new_end_sig) {
        let links = chain.links().push(link(new_end_key, new_end_sig));
        chain.lemma_of_parts();
        assert forall|i: int| 0 <= i < links.len() implies (#[trigger] links[i]).exp is None by {
            if i < chain.links().len() {
                assert(links[i] == chain.links()[i]);
            }
        }
        TrustChain::lemma_parts_of(chain.root(), links);
        if chain.links_verify() {
            assert forall|i: int| 0 <= i < longer.links().len() implies #[trigger]
                longer.link_verifies(i) by {
                if i < chain.links().len() {
                    assert(chain.link_verifies(i));
                }
            }
        }
    }
}

/// Appending keys goes on from a chain without touching what it holds: the
/// chain that comes out starts with the same root, holds the old links and
/// then the new ones, and is vouched for link by link if the chain it started
/// from was.
pub proof fn lemma_extended_sound(chain: TrustChain, links: Seq<Link>)
    requires
        forall|i: int| 0 <= i < links.len() ==> (#[trigger] links[i]).exp is None,
    ensures
        extended(chain, links) matches Ok(longer) ==> {
            &&& longer.root() == chain.root()
            &&& longer.links() == chain.links() + links
            &&& chain.links_verify() ==> longer.links_verify()
        },
    decreases links.len(),
{
    if links.len() > 0 {
        if let Ok(next) = chain.appended(links[0].key, links[0].sig) {
            lemma_appended(chain, links[0].key, links[0].sig);
            lemma_extended_sound(next, links.skip(1));
            assert(links[0] == link(links[0].key, links[0].sig));
            assert(chain.links().push(links[0]) + links.skip(1) =~= chain.links() + links);
        }
    } else {
        assert(chain.links() + links =~= chain.links());
    }
}

/// A chain of `MAXCHAINLINKS` keys takes no further key, whatever the key
/// and its signature are.
pub proof fn lemma_full_chain_takes_no_link(
    chain: TrustChain,
    new_end_key: PublicKey,
    new_end_sig: Signature,
)
    requires
        chain.spec_len() == MAXCHAINLINKS,
    ensures
        chain.appended(new_end_key, new_end_sig) == Err::<TrustChain, TrustError>(
            TrustError::MaxChainLengthExceeded,
        ),
{
}

/// What appending `links` to `chain`, one after the other, leads to.
pub open spec fn extended(chain: TrustChain, links: Seq<Link>) -> Result<TrustChain, TrustError>
    decreases links.len(),
{
    if links.len() == 0 {
        Ok(chain)
    } else {
        match chain.appended(links[0].key, links[0].sig) {
            Ok(longer) => extended(longer, links.skip(1)),
            Err(e) => Err(e),
        }
    }
}

/// What building a chain from a root key and the links after it leads to,
/// given whether the key store lists the root key.
pub open spec fn built(root_trusted: bool, root_key: PublicKey, links: Seq<Link>) -> Result<
    TrustChain,
    TrustError,
> {
    if root_trusted {
        extended(TrustChain::RootOnlyChain { root_key }, links)
    } else {
        Err(TrustError::NoRootKeyTrust)
    }
}

} // verus!
