//! The positions of a chain: the root, and the links that follow it.
use vstd::prelude::*;
use crate::v3::expiry::Expiry;
use crate::v3::key::PublicKey;
use crate::v3::signature::Signature;

verus! {

/// The first position of a chain: a key that is trusted because the key
/// store lists it.
#[derive(Copy, Clone, Debug, PartialEq)]
pub struct Root {
    pub key: PublicKey,
}

/// A later position of a chain: a key, the signature by which the key of the
/// position before vouches for it and, optionally, the window in which
/// it is meant to be used.
#[derive(Copy, Clone, Debug, PartialEq)]
pub struct Link {
    pub key: PublicKey,
    pub sig: Signature,
    pub exp: Option<Expiry>,
}

/// What every position of a chain shows of itself.
#[derive(Copy, Clone, Debug, PartialEq)]
pub struct Position {
    pub key: PublicKey,
    pub signature: Option<Signature>,
    pub expiry: Option<Expiry>,
    pub is_root: bool,
}

impl Root {
    pub fn new(key: PublicKey) -> (root: Root)
        ensures
            root == (Root { key }),
    {
        Root { key }
    }

    /// The root as a position: a key and nothing else.
    pub open spec fn shown(self) -> Position {
        Position { key: self.key, signature: None, expiry: None, is_root: true }
    }

    /// The root as a position.
    pub fn to_position(&self) -> (p: Position)
        ensures
            p == self.shown(),
    {
        Position { key: self.key, signature: None, expiry: None, is_root: true }
    }
}

impl Link {
    /// A link without a validity window.
    pub fn new(key: PublicKey, sig: Signature) -> (link: Link)
        ensures
            link == (Link { key, sig, exp: None }),
    {
        Link { key, sig, exp: None }
    }

    /// A link that carries a validity window, which is then part of what
    /// the signature covers.
    pub fn with_expiry(key: PublicKey, sig: Signature, exp: Expiry) -> (link: Link)
        ensures
            link == (Link { key, sig, exp: Some(exp) }),
    {
        Link { key, sig, exp: Some(exp) }
    }

    /// The bytes of the window, if the link carries one.
    pub open spec fn expiry_bytes(self) -> Seq<u8> {
        match self.exp {
            Some(exp) => exp.encoding(),
            None => Seq::empty(),
        }
    }

    /// The message that the link's signature has to cover: the key, followed
    /// by the window where there is one.
    pub open spec fn message(self) -> Seq<u8> {
        self.key@ + self.expiry_bytes()
    }

    /// The link as it is written into a serialized chain: the key, the window
    /// where there is one, the signature.
    pub open spec fn record(self) -> Seq<u8> {
        self.key@ + self.expiry_bytes() + self.sig@
    }

    /// The link as a position.
    pub open spec fn shown(self) -> Position {
        Position { key: self.key, signature: Some(self.sig), expiry: self.exp, is_root: false }
    }

    /// The link as a position.
    pub fn to_position(&self) -> (p: Position)
        ensures
            p == self.shown(),
    {
        Position { key: self.key, signature: Some(self.sig), expiry: self.exp, is_root: false }
    }

    /// Builds the message that the link's signature has to cover.
    pub fn signed_message(&self) -> (message: Vec<u8>)
        ensures
            message@ == self.message(),
    {
        let mut message: Vec<u8> = Vec::new();
        push_all(&mut message, self.key.as_bytes());
        match self.exp {
            Some(exp) => {
                let bytes = exp.as_bytes();
                push_all(&mut message, bytes.as_slice());
            },
            None => {},
        }
        message
    }
}

/// Appends every byte of `bytes` to `out`.
pub(crate) fn push_all(out: &mut Vec<u8>, bytes: &[u8])
    ensures
        final(out)@ == old(out)@ + bytes@,
{
    let mut i: usize = 0;
    while i < bytes.len()
        invariant
            i <= bytes.len(),
            out@ == old(out)@ + bytes@.take(i as int),
        decreases bytes.len() - i,
    {
        out.push(bytes[i]);
        assert(bytes@.take(i + 1) =~= bytes@.take(i as int).push(bytes@[i as int]));
        i += 1;
    }
    assert(bytes@.take(bytes.len() as int) =~= bytes@);
}

/// Something that holds a public key.
pub trait Key {
    spec fn spec_key(&self) -> PublicKey;

    fn key(&self) -> (key: PublicKey)
        ensures
            key == self.spec_key(),
    ;
}

/// Something that holds a signature.
pub trait Signed {
    spec fn spec_sig(&self) -> Signature;

    fn sig(&self) -> (sig: Signature)
        ensures
            sig == self.spec_sig(),
    ;
}

/// Something that may hold a validity window.
pub trait Expire {
    spec fn spec_exp(&self) -> Option<Expiry>;

    fn exp(&self) -> (exp: Option<Expiry>)
        ensures
            exp == self.spec_exp(),
    ;
}

/// A position of a chain, whichever kind it is.
pub trait TrustLink {
    /// What the position shows of itself.
    spec fn position(&self) -> Position;

    fn key(&self) -> (key: PublicKey)
        ensures
            key == self.position().key,
    ;

    /// The signature that vouches for the key; the root has none.
    fn signature(&self) -> (signature: Option<Signature>)
        ensures
            signature == self.position().signature,
    ;

    /// The validity window of the key; the root has none.
    fn expiry(&self) -> (expiry: Option<Expiry>)
        ensures
            expiry == self.position().expiry,
    ;

    fn is_root(&self) -> (is_root: bool)
        ensures
            is_root == self.position().is_root,
    ;
}

impl Key for Root {
    open spec fn spec_key(&self) -> PublicKey {
        self.key
    }

    fn key(&self) -> (key: PublicKey) {
        self.key
    }
}

impl Key for Link {
    open spec fn spec_key(&self) -> PublicKey {
        self.key
    }

    fn key(&self) -> (key: PublicKey) {
        self.key
    }
}

impl Signed for Link {
    open spec fn spec_sig(&self) -> Signature {
        self.sig
    }

    fn sig(&self) -> (sig: Signature) {
        self.sig
    }
}

impl Expire for Link {
    open spec fn spec_exp(&self) -> Option<Expiry> {
        self.exp
    }

    fn exp(&self) -> (exp: Option<Expiry>) {
        self.exp
    }
}

impl TrustLink for Root {
    open spec fn position(&self) -> Position {
        self.shown()
    }

    fn key(&self) -> (key: PublicKey) {
        self.key
    }

    fn signature(&self) -> (signature: Option<Signature>) {
        None
    }

    fn expiry(&self) -> (expiry: Option<Expiry>) {
        None
    }

    fn is_root(&self) -> (is_root: bool) {
        true
    }
}

impl TrustLink for Link {
    open spec fn position(&self) -> Position {
        self.shown()
    }

    fn key(&self) -> (key: PublicKey) {
        self.key
    }

    fn signature(&self) -> (signature: Option<Signature>) {
        Some(self.sig)
    }

    fn expiry(&self) -> (expiry: Option<Expiry>) {
        self.exp
    }

    fn is_root(&self) -> (is_root: bool) {
        false
    }
}

impl TrustLink for Position {
    open spec fn position(&self) -> Position {
        *self
    }

    fn key(&self) -> (key: PublicKey) {
        self.key
    }

    fn signature(&self) -> (signature: Option<Signature>) {
        self.signature
    }

    fn expiry(&self) -> (expiry: Option<Expiry>) {
        self.expiry
    }

    fn is_root(&self) -> (is_root: bool) {
        self.is_root
    }
}

} // verus!
