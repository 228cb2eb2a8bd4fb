//! Reading a serialized chain of the older format.
//!
//! The bytes are taken apart first: header, root key, number of further
//! keys, then that many records of a key and a signature. Only then is the
//! chain built, which is where the key store is asked and the signatures are
//! verified.
use vstd::prelude::*;
use vstd::slice::slice_subrange;
use crate::v2::error::TrustError;
use crate::v2::trust_chain::{
    built, extended, lemma_extended_sound, link, RootKeysStore, TrustChain, MAXCHAINLINKS,
    PUBLICKEYBYTES, SIGNATUREBYTES, TC_V2_HEADER,
};
use crate::v3::key::PublicKey;
use crate::v3::keystore::bytes_equal;
use crate::v3::link::Link;
use crate::v3::parsers::{lemma_record_at, lemma_record_width, lemma_records_len};
use crate::v3::signature::Signature;
use crate::v3::trust_chain::records;

verus! {

/// The width of the record of one key after the root: the key and the
/// signature that vouches for it.
pub const LINKBYTES: usize = 96;

/// The number of bytes before the first record: header, root key, count.
pub const PREAMBLEBYTES: usize = 37;

/// The first `count` records of `input`, as links.
pub open spec fn links_of(input: Seq<u8>, count: nat) -> Seq<Link> {
    Seq::new(
        count,
        |i: int|
            link(
                PublicKey::of(input.subrange(96 * i, 96 * i + 32)),
                Signature::of(input.subrange(96 * i + 32, 96 * i + 96)),
            ),
    )
}

/// What a serialized chain at the start of `input` parses to: the chain and
/// the bytes after it.
pub open spec fn parsed<S: RootKeysStore + ?Sized>(input: Seq<u8>, store: &S) -> Result<
    (Seq<u8>, TrustChain),
    TrustError,
> {
    if input.len() < PREAMBLEBYTES || input.take(4) != TC_V2_HEADER@ {
        Err(TrustError::InvalidTrustChain)
    } else if input[36] >= MAXCHAINLINKS {
        Err(TrustError::MaxChainLengthExceeded)
    } else if input.len() < PREAMBLEBYTES + LINKBYTES * input[36] {
        Err(TrustError::InvalidTrustChain)
    } else {
        match built(
            store.trusts(input.subrange(4, 36)),
            PublicKey::of(input.subrange(4, 36)),
            links_of(input.skip(37), input[36] as nat),
        ) {
            Ok(chain) => Ok((input.skip(PREAMBLEBYTES + LINKBYTES * input[36]), chain)),
            Err(e) => Err(e),
        }
    }
}

/// Takes a signature off the front of `input` and hands back what follows it.
pub fn signature(input: &[u8]) -> (r: Result<(&[u8], Signature), TrustError>)
    ensures
        input@.len() < SIGNATUREBYTES ==> r == Err::<(&[u8], Signature), TrustError>(
            TrustError::InvalidTrustChain,
        ),
        input@.len() >= SIGNATUREBYTES ==> (r matches Ok((rest, sig)) && rest@ == input@.skip(
            SIGNATUREBYTES as int,
        ) && sig == Signature::of(input@.take(SIGNATUREBYTES as int))),
{
    if input.len() < SIGNATUREBYTES {
        return Err(TrustError::InvalidTrustChain);
    }
    proof {
        assert(input@.subrange(0, 64) =~= input@.take(64));
        assert(input@.subrange(64, input@.len() as int) =~= input@.skip(64));
    }
    match Signature::from_slice(slice_subrange(input, 0, SIGNATUREBYTES)) {
        Some(sig) => Ok((slice_subrange(input, SIGNATUREBYTES, input.len()), sig)),
        None => Err(TrustError::InvalidTrustChain),
    }
}

/// Takes a public key off the front of `input` and hands back what follows it.
pub fn public_key(input: &[u8]) -> (r: Result<(&[u8], PublicKey), TrustError>)
    ensures
        input@.len() < PUBLICKEYBYTES ==> r == Err::<(&[u8], PublicKey), TrustError>(
            TrustError::InvalidTrustChain,
        ),
        input@.len() >= PUBLICKEYBYTES ==> (r matches Ok((rest, key)) && rest@ == input@.skip(
            PUBLICKEYBYTES as int,
        ) && key == PublicKey::of(input@.take(PUBLICKEYBYTES as int))),
{
    if input.len() < PUBLICKEYBYTES {
        return Err(TrustError::InvalidTrustChain);
    }
    proof {
        assert(input@.subrange(0, 32) =~= input@.take(32));
        assert(input@.subrange(32, input@.len() as int) =~= input@.skip(32));
    }
    match PublicKey::from_slice(slice_subrange(input, 0, PUBLICKEYBYTES)) {
        Some(key) => Ok((slice_subrange(input, PUBLICKEYBYTES, input.len()), key)),
        None => Err(TrustError::InvalidTrustChain),
    }
}

/// The pairs of a key and a signature, as links.
pub open spec fn as_links(pairs: Seq<(PublicKey, Signature)>) -> Seq<Link> {
    pairs.map_values(|pair: (PublicKey, Signature)| link(pair.0, pair.1))
}

/// Builds the chain that starts at `untrusted_root_key` and goes on with
/// `links`, by the constructor for their number.
pub fn chain_for<S: RootKeysStore + ?Sized>(
    untrusted_root_key: PublicKey,
    root_keys_store: Box<S>,
    links: Vec<(PublicKey, Signature)>,
) -> (r: Result<TrustChain, TrustError>)
    ensures
        r == (if links@.len() >= MAXCHAINLINKS {
            Err(TrustError::MaxChainLengthExceeded)
        } else {
            built(
                root_keys_store.trusts(untrusted_root_key@),
                untrusted_root_key,
                as_links(links@),
            )
        }),
        r matches Ok(chain) ==> chain.links_verify(),
{
    proof {
        reveal_with_fuel(extended, 1);
    }
    match links.len() {
        0 => {
            assert(as_links(links@) =~= seq![]);
            TrustChain::root_only_chain(untrusted_root_key, root_keys_store)
        },
        1 => {
            assert(as_links(links@) =~= seq![link(links@[0].0, links@[0].1)]);
            TrustChain::two_link_chain(
                untrusted_root_key,
                links[0].0,
                links[0].1,
                root_keys_store,
            )
        },
        2 => {
            assert(as_links(links@) =~= seq![
                link(links@[0].0, links@[0].1),
                link(links@[1].0, links@[1].1),
            ]);
            TrustChain::three_link_chain(
                untrusted_root_key,
                links[0].0,
                links[1].0,
                links[0].1,
                links[1].1,
                root_keys_store,
            )
        },
        3 => {
            assert(as_links(links@) =~= seq![
                link(links@[0].0, links@[0].1),
                link(links@[1].0, links@[1].1),
                link(links@[2].0, links@[2].1),
            ]);
            TrustChain::four_link_chain(
                untrusted_root_key,
                links[0].0,
                links[1].0,
                links[2].0,
                links[0].1,
                links[1].1,
                links[2].1,
                root_keys_store,
            )
        },
        4 => {
            assert(as_links(links@) =~= seq![
                link(links@[0].0, links@[0].1),
                link(links@[1].0, links@[1].1),
                link(links@[2].0, links@[2].1),
                link(links@[3].0, links@[3].1),
            ]);
            TrustChain::five_link_chain(
                untrusted_root_key,
                links[0].0,
                links[1].0,
                links[2].0,
                links[3].0,
                links[0].1,
                links[1].1,
                links[2].1,
                links[3].1,
                root_keys_store,
            )
        },
        _ => Err(TrustError::MaxChainLengthExceeded),
    }
}

/// Parses a chain off the front of `input` and hands back what follows it.
pub fn trust_chain<S: RootKeysStore + ?Sized>(input: &[u8], root_keys: Box<S>) -> (r: Result<
    (&[u8], TrustChain),
    TrustError,
>)
    ensures
        match r {
            Ok((rest, chain)) => parsed(input@, &*root_keys) == Ok::<
                (Seq<u8>, TrustChain),
                TrustError,
            >((rest@, chain)) && chain.links_verify() && root_keys.trusts(chain.root()@),
            Err(e) => parsed(input@, &*root_keys) == Err::<(Seq<u8>, TrustChain), TrustError>(e),
        },
{
    if input.len() < PREAMBLEBYTES {
        return Err(TrustError::InvalidTrustChain);
    }
    if !bytes_equal(slice_subrange(input, 0, 4), TC_V2_HEADER.as_slice()) {
        return Err(TrustError::InvalidTrustChain);
    }
    assert(input@.subrange(0, 4) =~= input@.take(4));
    let root = match public_key(slice_subrange(input, 4, input.len())) {
        Ok((_, root)) => root,
        Err(e) => return Err(e),
    };
    assert(input@.subrange(4, input@.len() as int).take(32) =~= input@.subrange(4, 36));
    proof {
        PublicKey::lemma_of_bytes(input@.subrange(4, 36));
    }
    let chain_length: u8 = input[36];
    if chain_length as usize >= MAXCHAINLINKS {
        return Err(TrustError::MaxChainLengthExceeded);
    }
    let count: usize = chain_length as usize;
    if input.len() - PREAMBLEBYTES < LINKBYTES * count {
        return Err(TrustError::InvalidTrustChain);
    }
    let mut links: Vec<(PublicKey, Signature)> = Vec::new();
    let mut rest: &[u8] = slice_subrange(input, PREAMBLEBYTES, input.len());
    assert(rest@ =~= input@.skip(37));
    let mut i: usize = 0;
    while i < count
        invariant
            i <= count < MAXCHAINLINKS,
            PREAMBLEBYTES + LINKBYTES * count <= input.len(),
            rest@ == input@.skip(PREAMBLEBYTES + LINKBYTES * i),
            links@.len() == i,
            as_links(links@) == links_of(input@.skip(37), i as nat),
        decreases count - i,
    {
        let (after_key, key) = match public_key(rest) {
            Ok(found) => found,
            Err(e) => return Err(e),
        };
        let (after_sig, sig) = match signature(after_key) {
            Ok(found) => found,
            Err(e) => return Err(e),
        };
        proof {
            let body = input@.skip(37);
            assert(rest@.take(32) =~= body.subrange(96 * i, 96 * i + 32));
            assert(after_key@.take(64) =~= body.subrange(96 * i + 32, 96 * i + 96));
            assert(after_sig@ =~= input@.skip(PREAMBLEBYTES + LINKBYTES * (i + 1)));
            let longer = links@.push((key, sig));
            assert(key == PublicKey::of(body.subrange(96 * i, 96 * i + 32)));
            assert(sig == Signature::of(body.subrange(96 * i + 32, 96 * i + 96)));
            assert forall|j: int| 0 <= j < i + 1 implies as_links(longer)[j] == links_of(
                body,
                (i + 1) as nat,
            )[j] by {
                if j < i {
                    assert(as_links(longer)[j] == as_links(links@)[j]);
                    assert(as_links(links@)[j] == links_of(body, i as nat)[j]);
                }
            }
            assert(as_links(longer) =~= links_of(body, (i + 1) as nat));
        }
        links.push((key, sig));
        rest = after_sig;
        i += 1;
    }
    proof {
        PublicKey::lemma_of_view(root);
    }
    match chain_for(root, root_keys, links) {
        Ok(chain) => {
            proof {
                lemma_built_root(root_keys.trusts(root@), root, as_links(links@));
            }
            Ok((rest, chain))
        },
        Err(e) => Err(e),
    }
}

/// A chain that was built starts at the root that it was built from, that
/// root is trusted, its links are those that it was built from, and each of
/// them is vouched for by the key before it.
pub proof fn lemma_built_root(root_trusted: bool, root_key: PublicKey, links: Seq<Link>)
    requires
        forall|i: int| 0 <= i < links.len() ==> (#[trigger] links[i]).exp is None,
    ensures
        built(root_trusted, root_key, links) matches Ok(chain) ==> {
            &&& root_trusted
            &&& chain.root() == root_key
            &&& chain.links() == links
            &&& chain.links_verify()
        },
{
    if root_trusted {
        let first = TrustChain::RootOnlyChain { root_key };
        lemma_extended_sound(first, links);
        assert(first.links() + links =~= links);
    }
}

/// The first `count` records of `input` are written as its first `count`
/// times 96 bytes.
pub proof fn lemma_links_of_inverse(input: Seq<u8>, count: nat)
    requires
        LINKBYTES * count <= input.len(),
    ensures
        records(links_of(input, count)) == input.take(LINKBYTES * count),
    decreases count,
{
    let links = links_of(input, count);
    if count == 0 {
        assert(input.take(0) =~= Seq::<u8>::empty());
    } else {
        let before = (count - 1) as nat;
        lemma_links_of_inverse(input, before);
        assert(links.drop_last() =~= links_of(input, before));
        let start: int = 96 * (before as int);
        PublicKey::lemma_of_bytes(input.subrange(start, start + 32));
        Signature::lemma_of_bytes(input.subrange(start + 32, start + 96));
        assert(links.last().record() =~= input.subrange(start, start + 96));
        assert(input.take(start) + input.subrange(start, start + 96) =~= input.take(start + 96));
    }
}

/// Whatever the bytes are, a chain that parsing yields has as many keys
/// after the root as the bytes say, a root that the store lists, and links
/// that are each vouched for by the key before them. It is written as the
/// bytes that it was parsed from: its serialization, followed by what parsing
/// hands back, is the input.
pub proof fn lemma_parsed_sound<S: RootKeysStore + ?Sized>(input: Seq<u8>, store: &S)
    ensures
        parsed(input, store) matches Ok((rest, chain)) ==> {
            &&& input.len() >= PREAMBLEBYTES
            &&& chain.links().len() == input[36]
            &&& chain.root()@ == input.subrange(4, 36)
            &&& store.trusts(chain.root()@)
            &&& chain.links_verify()
            &&& chain.wire() + rest == input
        },
{
    if let Ok((rest, chain)) = parsed(input, store) {
        let n = input[36] as nat;
        let width: int = 96 * (n as int);
        let body = input.skip(37);
        PublicKey::lemma_of_bytes(input.subrange(4, 36));
        lemma_built_root(
            store.trusts(input.subrange(4, 36)),
            PublicKey::of(input.subrange(4, 36)),
            links_of(body, n),
        );
        lemma_links_of_inverse(body, n);
        assert(input.take(4) == TC_V2_HEADER@);
        assert(chain.wire() =~= input.take(4) + input.subrange(4, 36) + seq![input[36]]
            + body.take(width));
        assert(input.take(4) + input.subrange(4, 36) + seq![input[36]] + body.take(width)
            + input.skip(37 + width) =~= input);
    }
}

/// Whether the links of `chain` from position `from` on are each vouched
/// for by the key before them.
pub open spec fn verifies_from(chain: TrustChain, from: int) -> bool {
    forall|i: int| from <= i < chain.links().len() ==> #[trigger] chain.link_verifies(i)
}

/// Appending the links of `chain` from link `k` on to the chain of the links
/// before them ends in `chain` if all of them verify and in
/// `InvalidSignature` if one does not.
proof fn lemma_extended_links(chain: TrustChain, k: int)
    requires
        0 <= k <= chain.links().len(),
    ensures
        extended(TrustChain::of(chain.root(), chain.links().take(k)), chain.links().skip(k)) == (
        if verifies_from(chain, k) {
            Ok::<TrustChain, TrustError>(chain)
        } else {
            Err::<TrustChain, TrustError>(TrustError::InvalidSignature)
        }),
    decreases chain.links().len() - k,
{
    let links = chain.links();
    let root = chain.root();
    let before = TrustChain::of(root, links.take(k));
    chain.lemma_of_parts();
    if k == links.len() {
        assert(links.take(k) =~= links);
        assert(links.skip(k) =~= Seq::<Link>::empty());
    } else {
        let next = links[k];
        assert(links.skip(k)[0] == next);
        assert(links.skip(k).skip(1) =~= links.skip(k + 1));
        assert(next == link(next.key, next.sig));
        TrustChain::lemma_parts_of(root, links.take(k));
        assert(before.spec_end_key() == chain.key_at(k)) by {
            if k > 0 {
                assert(links.take(k)[k - 1] == links[k - 1]);
            }
        }
        assert(chain.link_verifies(k) == crate::v2::trust_chain::detached_valid(
            next.sig@,
            next.key@,
            before.spec_end_key()@,
        ));
        if chain.link_verifies(k) {
            assert(links.take(k + 1) =~= links.take(k).push(next));
            lemma_extended_links(chain, k + 1);
            assert(verifies_from(chain, k) == verifies_from(chain, k + 1));
        } else {
            assert(!verifies_from(chain, k));
        }
    }
}

/// Parsing what `as_bytes` wrote, whatever follows it, gives the chain back,
/// together with what follows, if its root is trusted and each of its links
/// is vouched for. Where the root is not trusted the answer is
/// `NoRootKeyTrust`, whatever the links are; where it is and a link is not
/// vouched for, `InvalidSignature`.
pub proof fn lemma_parse_wire<S: RootKeysStore + ?Sized>(
    chain: TrustChain,
    store: &S,
    rest: Seq<u8>,
)
    ensures
        parsed(chain.wire() + rest, store) == (if !store.trusts(chain.root()@) {
            Err::<(Seq<u8>, TrustChain), TrustError>(TrustError::NoRootKeyTrust)
        } else if chain.links_verify() {
            Ok::<(Seq<u8>, TrustChain), TrustError>((rest, chain))
        } else {
            Err::<(Seq<u8>, TrustChain), TrustError>(TrustError::InvalidSignature)
        }),
{
    broadcast use {
        PublicKey::lemma_width,
        Signature::lemma_width,
        PublicKey::lemma_of_view,
        Signature::lemma_of_view,
    };

    let input = chain.wire() + rest;
    let links = chain.links();
    let n: int = links.len() as int;
    chain.lemma_of_parts();
    lemma_wire_preamble(chain);
    assert(input.take(4) =~= TC_V2_HEADER@);
    assert(input[36] == n as u8);
    assert(input.subrange(4, 36) =~= chain.root()@);
    assert(input.skip(37) =~= records(links) + rest);
    assert(input.skip(37 + 96 * n) =~= rest);
    let body = input.skip(37);
    assert forall|i: int| 0 <= i < n implies links_of(body, n as nat)[i] == links[i] by {
        lemma_record_at(links, i, false);
        lemma_record_width(links[i]);
        let record = links[i].record();
        assert(records(links).subrange(96 * i, 96 * i + 96) == record);
        assert(body.subrange(96 * i, 96 * i + 32) =~= record.subrange(0, 32));
        assert(body.subrange(96 * i + 32, 96 * i + 96) =~= record.subrange(32, 96));
        assert(record.subrange(0, 32) =~= links[i].key@);
        assert(record.subrange(32, 96) =~= links[i].sig@);
    }
    assert(links_of(body, n as nat) =~= links);
    assert(links.take(0) =~= Seq::<Link>::empty());
    assert(links.skip(0) =~= links);
    lemma_extended_links(chain, 0);
    assert(verifies_from(chain, 0) == chain.links_verify());
}

/// Where things stand in a serialized chain: the header in the first four
/// bytes, the key of the root in the next 32, the number of keys after the
/// root in byte 36, and after these 37 bytes one record of 96 bytes for each
/// of those keys.
pub proof fn lemma_wire_preamble(chain: TrustChain)
    ensures
        chain.wire().len() == 4 + 32 + 1 + chain.links().len() * 96,
        chain.wire().subrange(0, 4) == TC_V2_HEADER@,
        chain.wire().subrange(4, 36) == chain.root()@,
        chain.wire()[36] == chain.links().len(),
        chain.links().len() < MAXCHAINLINKS,
        chain.wire().skip(37) == records(chain.links()),
{
    broadcast use PublicKey::lemma_width;

    chain.lemma_of_parts();
    lemma_records_len(chain.links(), false);
    assert(chain.wire().subrange(0, 4) =~= TC_V2_HEADER@);
    assert(chain.wire().subrange(4, 36) =~= chain.root()@);
    assert(chain.wire().skip(37) =~= records(chain.links()));
}

/// Where key `i` after the root stands in a serialized chain, counted from
/// 0: its key in the 32 bytes from `37 + 96 * i` on, the signature that
/// vouches for it in the 64 bytes after that.
pub proof fn lemma_wire_link(chain: TrustChain, i: int)
    requires
        0 <= i < chain.links().len(),
    ensures
        37 + 96 * i + 96 <= chain.wire().len(),
        chain.wire().subrange(37 + 96 * i, 69 + 96 * i) == chain.links()[i].key@,
        chain.wire().subrange(69 + 96 * i, 133 + 96 * i) == chain.links()[i].sig@,
{
    broadcast use {PublicKey::lemma_width, Signature::lemma_width};

    let links = chain.links();
    chain.lemma_of_parts();
    lemma_wire_preamble(chain);
    lemma_record_at(links, i, false);
    lemma_record_width(links[i]);
    let wire = chain.wire();
    let record = links[i].record();
    assert(records(links).subrange(96 * i, 96 * i + 96) == record);
    assert(wire.subrange(37 + 96 * i, 69 + 96 * i) =~= record.subrange(0, 32));
    assert(wire.subrange(69 + 96 * i, 133 + 96 * i) =~= record.subrange(32, 96));
    assert(record.subrange(0, 32) =~= links[i].key@);
    assert(record.subrange(32, 96) =~= links[i].sig@);
}

/// A serialized chain that claims more keys than a chain can hold is
/// refused for that reason, whatever else it holds.
pub proof fn lemma_parse_refuses_overlong<S: RootKeysStore + ?Sized>(input: Seq<u8>, store: &S)
    requires
        input.len() >= PREAMBLEBYTES,
        input.take(4) == TC_V2_HEADER@,
        input[36] >= MAXCHAINLINKS,
    ensures
        parsed(input, store) == Err::<(Seq<u8>, TrustChain), TrustError>(
            TrustError::MaxChainLengthExceeded,
        ),
{
}

} // verus!
