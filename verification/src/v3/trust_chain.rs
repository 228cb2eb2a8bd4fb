//! Trust chains: a trusted root key followed by at most four links, each
//! vouched for by the key before it.
use vstd::prelude::*;
use crate::v3::error::TrustError;
use crate::v3::hex::{text, to_hex};
use crate::v3::key::PublicKey;
use crate::v3::keystore::RootKeysStore;
use crate::v3::link::{push_all, Link, Position, Root};
use crate::v3::signature::Signature;
use crate::v3::{MAXCHAINLINKS, TC_V3_HEADER};

verus! {

/// Whether `sig` is an Ed25519 signature over `msg` that verifies under the
/// public key `key`.
pub uninterp spec fn ed25519_valid(key: Seq<u8>, msg: Seq<u8>, sig: Seq<u8>) -> bool;

/// Ed25519 verification, done by `ring::signature::UnparsedPublicKey::verify`
/// with the algorithm `ring::signature::ED25519`. Nothing is proved of it: the
/// answer is taken to depend on the three byte strings alone, and
/// `ed25519_valid` is the name of that answer. The call rejects keys and
/// signatures of the wrong width by itself and never panics.
#[verifier::external_body]
fn verify_signature(key: &[u8], sig: &[u8], msg: &[u8]) -> (valid: bool)
    ensures
        valid == ed25519_valid(key@, msg@, sig@),
{
    ring::signature::UnparsedPublicKey::new(&ring::signature::ED25519, key).verify(msg, sig).is_ok()
}

/// The records of `links`, one after the other.
pub open spec fn records(links: Seq<Link>) -> Seq<u8>
    decreases links.len(),
{
    if links.len() == 0 {
        Seq::empty()
    } else {
        records(links.drop_last()) + links.last().record()
    }
}

/// The records of the first `n + 1` links are those of the first `n`,
/// followed by the record of link `n`.
pub proof fn lemma_records_step(links: Seq<Link>, n: int)
    requires
        0 <= n < links.len(),
    ensures
        records(links.take(n + 1)) == records(links.take(n)) + links[n].record(),
{
    assert(links.take(n + 1).drop_last() =~= links.take(n));
}

/// The records of at least one link are the record of the first, followed
/// by the records of the others.
pub proof fn lemma_records_front(links: Seq<Link>)
    requires
        links.len() > 0,
    ensures
        records(links) == links[0].record() + records(links.skip(1)),
    decreases links.len(),
{
    if links.len() == 1 {
        assert(links.drop_last() =~= Seq::<Link>::empty());
        assert(links.skip(1) =~= Seq::<Link>::empty());
        assert(records(links) =~= links[0].record() + records(links.skip(1)));
    } else {
        lemma_records_front(links.drop_last());
        assert(links.skip(1).drop_last() =~= links.drop_last().skip(1));
        assert(records(links) =~= links[0].record() + records(links.skip(1)));
    }
}

/// The records of a sequence of links can be cut anywhere between two links.
pub proof fn lemma_records_split(links: Seq<Link>, n: int)
    requires
        0 <= n <= links.len(),
    ensures
        records(links) == records(links.take(n)) + records(links.skip(n)),
    decreases links.len() - n,
{
    if n == links.len() {
        assert(links.take(n) =~= links);
        assert(links.skip(n) =~= Seq::<Link>::empty());
        assert(records(links) =~= records(links.take(n)) + records(links.skip(n)));
    } else {
        lemma_records_split(links, n + 1);
        lemma_records_step(links, n);
        lemma_records_front(links.skip(n));
        assert(links.skip(n).skip(1) =~= links.skip(n + 1));
        assert(records(links) =~= records(links.take(n)) + records(links.skip(n)));
    }
}

/// A chain of one to five keys. The variant tells the length.
#[derive(Copy, Clone, Debug, PartialEq)]
pub enum TrustChain {
    TC01(Root),
    TC02(Root, Link),
    TC03(Root, Link, Link),
    TC04(Root, Link, Link, Link),
    TC05(Root, Link, Link, Link, Link),
}

impl TrustChain {
    /// The first position.
    pub open spec fn root(self) -> Root {
        match self {
            TrustChain::TC01(r) => r,
            TrustChain::TC02(r, _) => r,
            TrustChain::TC03(r, _, _) => r,
            TrustChain::TC04(r, _, _, _) => r,
            TrustChain::TC05(r, _, _, _, _) => r,
        }
    }

    /// The positions after the first, in order.
    pub open spec fn links(self) -> Seq<Link> {
        match self {
            TrustChain::TC01(_) => seq![],
            TrustChain::TC02(_, a) => seq![a],
            TrustChain::TC03(_, a, b) => seq![a, b],
            TrustChain::TC04(_, a, b, c) => seq![a, b, c],
            TrustChain::TC05(_, a, b, c, d) => seq![a, b, c, d],
        }
    }

    /// The number of keys in the chain, root included.
    pub open spec fn spec_len(self) -> nat {
        1 + self.links().len()
    }

    /// The key at position `i`, where the root is position 0.
    pub open spec fn key_at(self, i: int) -> PublicKey {
        if i <= 0 {
            self.root().key
        } else {
            self.links()[i - 1].key
        }
    }

    /// The key of the last position: the one that signs for the holder of the chain.
    pub open spec fn spec_end_key(self) -> PublicKey {
        self.key_at(self.spec_len() - 1)
    }

    /// All positions, in order, as they show themselves.
    pub open spec fn positions(self) -> Seq<Position> {
        seq![self.root().shown()] + self.links().map_values(|l: Link| l.shown())
    }

    /// Whether every link is vouched for by the key of the position before
    /// it: its signature verifies over its message under that key.
    pub open spec fn links_verify(self) -> bool {
        forall|i: int| 0 <= i < self.links().len() ==> #[trigger] self.link_verifies(i)
    }

    /// Whether link `i` is vouched for by the key of the position before it.
    pub open spec fn link_verifies(self, i: int) -> bool {
        ed25519_valid(self.key_at(i)@, self.links()[i].message(), self.links()[i].sig@)
    }

    /// Whether the links all have the same format: each carries a validity
    /// window where `with_expiry` holds, and none does where it does not.
    pub open spec fn uniform(self, with_expiry: bool) -> bool {
        forall|i: int|
            0 <= i < self.links().len() ==> ((#[trigger] self.links()[i]).exp is Some)
                == with_expiry
    }

    /// Whether the validity windows that the links carry are well formed.
    /// Those of a chain that a program holds are.
    pub open spec fn windows_well_formed(self) -> bool {
        forall|i: int|
            0 <= i < self.links().len() ==> ((#[trigger] self.links()[i]).exp matches Some(exp)
                ==> exp.well_formed())
    }

    /// What `append` answers. A full chain takes no further link, whatever
    /// the link is; any other chain takes exactly the links that its last key
    /// vouches for.
    pub open spec fn appended(self, l: Link) -> Result<TrustChain, TrustError> {
        if self.spec_len() >= MAXCHAINLINKS {
            Err(TrustError::MaxChainLengthExceeded)
        } else if !ed25519_valid(self.spec_end_key()@, l.message(), l.sig@) {
            Err(TrustError::InvalidSignature)
        } else {
            Ok(
                match self {
                    TrustChain::TC01(r) => TrustChain::TC02(r, l),
                    TrustChain::TC02(r, a) => TrustChain::TC03(r, a, l),
                    TrustChain::TC03(r, a, b) => TrustChain::TC04(r, a, b, l),
                    TrustChain::TC04(r, a, b, c) => TrustChain::TC05(r, a, b, c, l),
                    TrustChain::TC05(_, _, _, _, _) => self,
                },
            )
        }
    }

    /// The chain that starts at `root` and goes on with `links`, of which
    /// there are at most four.
    pub open spec fn of(root: Root, links: Seq<Link>) -> TrustChain {
        if links.len() == 0 {
            TrustChain::TC01(root)
        } else if links.len() == 1 {
            TrustChain::TC02(root, links[0])
        } else if links.len() == 2 {
            TrustChain::TC03(root, links[0], links[1])
        } else if links.len() == 3 {
            TrustChain::TC04(root, links[0], links[1], links[2])
        } else {
            TrustChain::TC05(root, links[0], links[1], links[2], links[3])
        }
    }

    /// A chain is determined by its root and its links.
    pub proof fn lemma_of_parts(self)
        ensures
            self == TrustChain::of(self.root(), self.links()),
            1 <= self.spec_len() <= MAXCHAINLINKS,
    {
    }

    /// `of` puts the root and up to four links where `root` and `links` find them.
    pub proof fn lemma_parts_of(root: Root, links: Seq<Link>)
        requires
            links.len() < MAXCHAINLINKS,
        ensures
            TrustChain::of(root, links).root() == root,
            TrustChain::of(root, links).links() == links,
    {
        assert(TrustChain::of(root, links).links() =~= links);
    }

    /// The serialized chain: the header, the number of keys, the key of the
    /// root, then one record for each link.
    pub open spec fn wire(self) -> Seq<u8> {
        TC_V3_HEADER@ + seq![self.spec_len() as u8] + self.root().key@ + records(self.links())
    }

    /// The positions are the root followed by the links, one for one.
    pub proof fn lemma_positions(self)
        ensures
            self.positions().len() == self.spec_len(),
            self.positions()[0] == self.root().shown(),
            forall|i: int|
                1 <= i < self.spec_len() ==> #[trigger] self.positions()[i] == self.links()[i
                    - 1].shown(),
            forall|i: int|
                0 <= i < self.spec_len() ==> (#[trigger] self.positions()[i]).key == self.key_at(i),
    {
    }

    /// Starts a chain at `root`, if `root_key_store` lists its key.
    pub fn new<'ks, S: RootKeysStore<'ks> + ?Sized>(root_key_store: &'ks S, root: Root) -> (r:
        Result<TrustChain, TrustError>)
        ensures
            r == (if root_key_store.trusts(root.key@) {
                Ok(TrustChain::TC01(root))
            } else {
                Err(TrustError::NoRootKeyTrust)
            }),
    {
        if !root_key_store.contains_root_key(root.key.as_bytes()) {
            return Err(TrustError::NoRootKeyTrust);
        }
        Ok(TrustChain::TC01(root))
    }

    /// A walk over the positions of the chain, starting at the root.
    pub fn iter<'c>(&'c self) -> (it: TrustChainIterator<'c>)
        ensures
            it.remaining() == self.positions(),
    {
        let it = TrustChainIterator { chain: self, index: 0 };
        assert(it.remaining() =~= self.positions());
        it
    }

    /// The number of keys in the chain, root included.
    pub fn len(&self) -> (n: usize)
        ensures
            n == self.spec_len(),
            1 <= n <= MAXCHAINLINKS,
    {
        match self {
            TrustChain::TC01(_) => 1,
            TrustChain::TC02(_, _) => 2,
            TrustChain::TC03(_, _, _) => 3,
            TrustChain::TC04(_, _, _, _) => 4,
            TrustChain::TC05(_, _, _, _, _) => 5,
        }
    }

    /// The first position, which is the root.
    pub fn first(&self) -> (p: Position)
        ensures
            p == self.positions().first(),
    {
        proof {
            self.lemma_positions();
        }
        match self {
            TrustChain::TC01(l) => l.to_position(),
            TrustChain::TC02(l, _) => l.to_position(),
            TrustChain::TC03(l, _, _) => l.to_position(),
            TrustChain::TC04(l, _, _, _) => l.to_position(),
            TrustChain::TC05(l, _, _, _, _) => l.to_position(),
        }
    }

    /// The last position: the root where the chain holds nothing else.
    pub fn last(&self) -> (p: Position)
        ensures
            p == self.positions().last(),
    {
        proof {
            self.lemma_positions();
        }
        match self {
            TrustChain::TC01(l) => l.to_position(),
            TrustChain::TC02(_, l) => l.to_position(),
            TrustChain::TC03(_, _, l) => l.to_position(),
            TrustChain::TC04(_, _, _, l) => l.to_position(),
            TrustChain::TC05(_, _, _, _, l) => l.to_position(),
        }
    }

    /// The key of the last position.
    pub fn end_key(&self) -> (key: PublicKey)
        ensures
            key == self.spec_end_key(),
    {
        proof {
            self.lemma_positions();
        }
        self.last().key
    }

    /// Extends the chain by `l`, if the chain is not full and its last key
    /// vouches for `l`.
    pub fn append(self, l: Link) -> (r: Result<TrustChain, TrustError>)
        ensures
            r == self.appended(l),
            r matches Ok(chain) ==> {
                &&& chain.root() == self.root()
                &&& chain.links() == self.links().push(l)
                &&& self.links_verify() ==> chain.links_verify()
            },
    {
        if self.len() >= MAXCHAINLINKS as usize {
            return Err(TrustError::MaxChainLengthExceeded);
        }
        let message = l.signed_message();
        if !verify_signature(self.end_key().as_bytes(), l.sig.as_bytes(), message.as_slice()) {
            return Err(TrustError::InvalidSignature);
        }
        let chain = match self {
            TrustChain::TC01(r) => TrustChain::TC02(r, l),
            TrustChain::TC02(r, a) => TrustChain::TC03(r, a, l),
            TrustChain::TC03(r, a, b) => TrustChain::TC04(r, a, b, l),
            TrustChain::TC04(r, a, b, c) => TrustChain::TC05(r, a, b, c, l),
            TrustChain::TC05(_, _, _, _, _) => self,
        };
        proof {
            lemma_appended(self, l);
        }
        Ok(chain)
    }

    /// Serializes the chain.
    pub fn as_bytes(&self) -> (bytes: Vec<u8>)
        ensures
            bytes@ == self.wire(),
    {
        let mut out: Vec<u8> = Vec::with_capacity(4 + 1 + 32 + ((32 + 64) * (self.len() - 1)));
        push_all(&mut out, TC_V3_HEADER.as_slice());
        out.push(self.len() as u8);
        let ghost start = out@;
        let ghost mut done: int = 0;
        let mut it = self.iter();
        proof {
            self.lemma_positions();
        }
        loop
            invariant
                0 <= done <= self.spec_len(),
                it.remaining() == self.positions().skip(done),
                self.positions().len() == self.spec_len(),
                start == TC_V3_HEADER@ + seq![self.spec_len() as u8],
                done == 0 ==> out@ == start,
                done > 0 ==> out@ == start + self.root().key@ + records(
                    self.links().take(done - 1),
                ),
            ensures
                done == self.spec_len(),
                out@ == start + self.root().key@ + records(self.links().take(done - 1)),
            decreases self.spec_len() - done,
        {
            match it.next() {
                Some(l) => {
                    proof {
                        self.lemma_positions();
                        assert(l == self.positions()[done]);
                        assert(self.positions().skip(done).skip(1) =~= self.positions().skip(
                            done + 1,
                        ));
                    }
                    if l.is_root {
                        push_all(&mut out, l.key.as_bytes());
                        assert(self.links().take(0) =~= Seq::<Link>::empty());
                    } else {
                        proof {
                            lemma_records_step(self.links(), done - 1);
                        }
                        push_all(&mut out, l.key.as_bytes());
                        match l.expiry {
                            Some(exp) => {
                                let window = exp.as_bytes();
                                push_all(&mut out, window.as_slice());
                            },
                            None => {},
                        }
                        match l.signature {
                            Some(sig) => {
                                push_all(&mut out, sig.as_bytes());
                            },
                            None => {},
                        }
                        assert(out@ =~= start + self.root().key@ + records(
                            self.links().take(done - 1),
                        ) + self.links()[done - 1].record());
                    }
                    proof {
                        done = done + 1;
                    }
                },
                None => {
                    break ;
                },
            }
        }
        assert(self.links().take(done - 1) =~= self.links());
        out
    }

    /// The serialized chain as lowercase hexadecimal digits.
    pub fn to_string(&self) -> (s: String)
        ensures
            s@ == text(self.wire()),
    {
        let bytes = self.as_bytes();
        to_hex(bytes.as_slice())
    }

    /// Checks `untrusted_signature` over `untrusted_data`, exactly as given,
    /// under the last key of the chain.
    pub fn verify_data(&self, untrusted_signature: &Signature, untrusted_data: &[u8]) -> (r: Result<
        (),
        TrustError,
    >)
        ensures
            r == (if ed25519_valid(
                self.spec_end_key()@,
                untrusted_data@,
                untrusted_signature@,
            ) {
                Ok(())
            } else {
                Err(TrustError::InvalidSignature)
            }),
    {
        if verify_signature(
            self.end_key().as_bytes(),
            untrusted_signature.as_bytes(),
            untrusted_data,
        ) {
            Ok(())
        } else {
            Err(TrustError::InvalidSignature)
        }
    }
}

/// A walk over the positions of a chain, from the root to the last link.
pub struct TrustChainIterator<'c> {
    chain: &'c TrustChain,
    index: u8,
}

impl<'c> TrustChainIterator<'c> {
    /// The walk never runs past the end of its chain.
    #[verifier::type_invariant]
    pub closed spec fn in_bounds(self) -> bool {
        self.index <= self.chain.spec_len()
    }

    /// The positions that the walk has not handed out yet.
    pub closed spec fn remaining(self) -> Seq<Position> {
        self.chain.positions().skip(self.index as int)
    }

    /// Hands out the next position, if one is left.
    pub fn next(&mut self) -> (r: Option<Position>)
        ensures
            r == (if old(self).remaining().len() > 0 {
                Some(old(self).remaining().first())
            } else {
                None
            }),
            final(self).remaining() == (if r is Some {
                old(self).remaining().skip(1)
            } else {
                old(self).remaining()
            }),
    {
        proof {
            use_type_invariant(&*self);
            self.chain.lemma_positions();
        }
        let ghost before = *self;
        let r = match (self.index, self.chain) {
            (0, TrustChain::TC01(l)) => Some(l.to_position()),
            (0, TrustChain::TC02(l, _)) => Some(l.to_position()),
            (0, TrustChain::TC03(l, _, _)) => Some(l.to_position()),
            (0, TrustChain::TC04(l, _, _, _)) => Some(l.to_position()),
            (0, TrustChain::TC05(l, _, _, _, _)) => Some(l.to_position()),
            (1, TrustChain::TC02(_, l)) => Some(l.to_position()),
            (1, TrustChain::TC03(_, l, _)) => Some(l.to_position()),
            (1, TrustChain::TC04(_, l, _, _)) => Some(l.to_position()),
            (1, TrustChain::TC05(_, l, _, _, _)) => Some(l.to_position()),
            (2, TrustChain::TC03(_, _, l)) => Some(l.to_position()),
            (2, TrustChain::TC04(_, _, l, _)) => Some(l.to_position()),
            (2, TrustChain::TC05(_, _, l, _, _)) => Some(l.to_position()),
            (3, TrustChain::TC04(_, _, _, l)) => Some(l.to_position()),
            (3, TrustChain::TC05(_, _, _, l, _)) => Some(l.to_position()),
            (4, TrustChain::TC05(_, _, _, _, l)) => Some(l.to_position()),
            _ => None,
        };
        if r.is_some() {
            self.index += 1;
        }
        proof {
            if r is Some {
                assert(self.remaining() =~= before.remaining().skip(1));
            }
        }
        r
    }
}

/// Builds a chain in one call: starts at `root` and appends `links` in order.
/// The answer is that of the first step that fails, if one does.
pub fn trust_chain_v3<'ks, S: RootKeysStore<'ks> + ?Sized>(
    root_key_store: &'ks S,
    root: Root,
    links: &[Link],
) -> (r: Result<TrustChain, TrustError>)
    ensures
        r == (if root_key_store.trusts(root.key@) {
            extended(TrustChain::TC01(root), links@)
        } else {
            Err(TrustError::NoRootKeyTrust)
        }),
        r matches Ok(chain) ==> chain.links_verify() && chain.root() == root && chain.links()
            == links@,
{
    let mut chain = match TrustChain::new(root_key_store, root) {
        Ok(chain) => chain,
        Err(e) => return Err(e),
    };
    let mut i: usize = 0;
    assert(links@.skip(0) =~= links@);
    assert(chain.links() =~= links@.take(0));
    while i < links.len()
        invariant
            i <= links.len(),
            root_key_store.trusts(root.key@),
            extended(TrustChain::TC01(root), links@) == extended(chain, links@.skip(i as int)),
            chain.links_verify(),
            chain.root() == root,
            chain.links() == links@.take(i as int),
        decreases links.len() - i,
    {
        assert(links@.skip(i as int)[0] == links@[i as int]);
        assert(links@.skip(i as int).skip(1) =~= links@.skip(i + 1));
        assert(extended(chain, links@.skip(i as int)) == match chain.appended(links@[i as int]) {
            Ok(longer) => extended(longer, links@.skip(i + 1)),
            Err(e) => Err(e),
        });
        assert(links@.take(i + 1) =~= links@.take(i as int).push(links@[i as int]));
        chain = match chain.append(links[i]) {
            Ok(chain) => chain,
            Err(e) => return Err(e),
        };
        i += 1;
    }
    assert(links@.take(i as int) =~= links@);
    Ok(chain)
}

/// A chain that took a link is the old chain with that link at its end, and
/// is vouched for link by link if the old chain was.
pub proof fn lemma_appended(chain: TrustChain, link: Link)
    ensures
        chain.appended(link) matches Ok(longer) ==> {
            &&& longer.root() == chain.root()
            &&& longer.links() == chain.links().push(link)
            &&& longer.spec_end_key() == link.key
            &&& chain.links_verify() ==> longer.links_verify()
        },
{
    if let Ok(longer) = chain.appended(link) {
        assert(longer.links() =~= chain.links().push(link));
        if chain.links_verify() {
            assert forall|i: int| 0 <= i < longer.links().len() implies #[trigger]
                longer.link_verifies(i) by {
                if i < chain.links().len() {
                    assert(chain.link_verifies(i));
                }
            }
        }
    }
}

/// A chain of `MAXCHAINLINKS` keys takes no further link, whatever the link is.
pub proof fn lemma_full_chain_takes_no_link(chain: TrustChain, link: Link)
    requires
        chain.spec_len() == MAXCHAINLINKS,
    ensures
        chain.appended(link) == Err::<TrustChain, TrustError>(TrustError::MaxChainLengthExceeded),
{
}

/// Appending links never ends in a chain of more than `MAXCHAINLINKS` keys:
/// where more links are given than `chain` has room for and all those that
/// fit are vouched for, the answer is `MaxChainLengthExceeded`.
pub proof fn lemma_extended_too_far(chain: TrustChain, links: Seq<Link>)
    requires
        chain.spec_len() + links.len() > MAXCHAINLINKS,
        extended(chain, links.take(MAXCHAINLINKS - chain.spec_len())) is Ok,
    ensures
        extended(chain, links) == Err::<TrustChain, TrustError>(
            TrustError::MaxChainLengthExceeded,
        ),
    decreases links.len(),
{
    chain.lemma_of_parts();
    let room = MAXCHAINLINKS - chain.spec_len();
    if room == 0 {
    } else {
        assert(links.take(room)[0] == links[0]);
        match chain.appended(links[0]) {
            Ok(longer) => {
                assert(longer.links() =~= chain.links().push(links[0]));
                assert(links.take(room).skip(1) =~= links.skip(1).take(room - 1));
                lemma_extended_too_far(longer, links.skip(1));
            },
            Err(_) => {},
        }
    }
}

/// What appending `links` to `chain`, one after the other, leads to.
pub open spec fn extended(chain: TrustChain, links: Seq<Link>) -> Result<TrustChain, TrustError>
    decreases links.len(),
{
    if links.len() == 0 {
        Ok(chain)
    } else {
        match chain.appended(links[0]) {
            Ok(longer) => extended(longer, links.skip(1)),
            Err(e) => Err(e),
        }
    }
}

} // verus!
