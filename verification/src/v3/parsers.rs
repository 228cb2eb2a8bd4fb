//! Reading a serialized chain.
//!
//! A chain is read front to back: the header and the number of keys, the key
//! of the root, then one record for each link. The root is checked against
//! the key store before any link is looked at, and every link is appended by
//! `TrustChain::append` as soon as it is read, so that no chain comes out of
//! here whose signatures have not been verified.
use vstd::prelude::*;
use vstd::slice::slice_subrange;
use crate::v3::error::TrustError;
use crate::v3::expiry::Expiry;
use crate::v3::key::PublicKey;
use crate::v3::keystore::{bytes_equal, RootKeysStore};
use crate::v3::link::{Link, Root};
use crate::v3::signature::Signature;
use crate::v3::trust_chain::{
    ed25519_valid, lemma_appended, lemma_records_front, lemma_records_split, records, TrustChain,
};
use crate::v3::{MAXCHAINLINKS, PUBLICKEYBYTES, TC_V3_HEADER};

verus! {

/// The number of bytes before the first link: header, length, root key.
pub const PREAMBLEBYTES: usize = 37;

/// The width of the record of a link without a validity window.
pub const LINKBYTES: usize = 96;

/// The width of the record of a link with a validity window.
pub const EXPIRINGLINKBYTES: usize = 102;

/// The width of a link's record.
pub open spec fn link_width(with_expiry: bool) -> int {
    if with_expiry {
        EXPIRINGLINKBYTES as int
    } else {
        LINKBYTES as int
    }
}

/// What the first five bytes of a serialized chain say about its length.
/// They must be the header and a number of keys between 1 and `MAXCHAINLINKS`.
pub open spec fn chain_length_of(input: Seq<u8>) -> Result<u8, TrustError> {
    if input.len() < 5 || input.take(4) != TC_V3_HEADER@ {
        Err(TrustError::InvalidTrustChain)
    } else if input[4] > MAXCHAINLINKS {
        Err(TrustError::MaxChainLengthExceeded)
    } else if input[4] < 1 {
        Err(TrustError::InvalidTrustChain)
    } else {
        Ok(input[4])
    }
}

/// The root that `bytes` spell, which must be exactly one key.
pub open spec fn root_of(bytes: Seq<u8>) -> Result<Root, TrustError> {
    if bytes.len() != PUBLICKEYBYTES {
        Err(TrustError::InvalidTrustChain)
    } else {
        Ok(Root { key: PublicKey::of(bytes) })
    }
}

/// The link that `record` spells, which must be exactly one record: the key,
/// the window where the format carries one, the signature.
pub open spec fn link_of(record: Seq<u8>, with_expiry: bool) -> Result<Link, TrustError> {
    if record.len() != link_width(with_expiry) {
        Err(TrustError::InvalidTrustChain)
    } else if with_expiry {
        match Expiry::decoded(record.subrange(32, 38)) {
            Ok(exp) => Ok(
                Link {
                    key: PublicKey::of(record.subrange(0, 32)),
                    sig: Signature::of(record.subrange(38, 102)),
                    exp: Some(exp),
                },
            ),
            Err(_) => Err(TrustError::InvalidTrustChain),
        }
    } else {
        Ok(
            Link {
                key: PublicKey::of(record.subrange(0, 32)),
                sig: Signature::of(record.subrange(32, 96)),
                exp: None,
            },
        )
    }
}

/// What reading `count` links from `input` and appending each to `chain`
/// leads to. Each link is appended before the next one is read.
pub open spec fn links_parsed(input: Seq<u8>, chain: TrustChain, count: nat, with_expiry: bool)
    -> Result<TrustChain, TrustError>
    decreases count,
{
    if count == 0 {
        Ok(chain)
    } else if input.len() < link_width(with_expiry) {
        Err(TrustError::InvalidTrustChain)
    } else {
        match link_of(input.take(link_width(with_expiry)), with_expiry) {
            Err(e) => Err(e),
            Ok(link) => match chain.appended(link) {
                Err(e) => Err(e),
                Ok(longer) => links_parsed(
                    input.skip(link_width(with_expiry)),
                    longer,
                    (count - 1) as nat,
                    with_expiry,
                ),
            },
        }
    }
}

/// What a serialized chain at the start of `input` parses to. Bytes after
/// the chain are not looked at.
pub open spec fn parsed<'ks, S: RootKeysStore<'ks> + ?Sized>(
    input: Seq<u8>,
    store: &S,
    with_expiry: bool,
) -> Result<TrustChain, TrustError> {
    match chain_length_of(input) {
        Err(e) => Err(e),
        Ok(n) => if input.len() < PREAMBLEBYTES {
            Err(TrustError::InvalidTrustChain)
        } else if !store.trusts(input.subrange(5, 37)) {
            Err(TrustError::NoRootKeyTrust)
        } else {
            links_parsed(
                input.skip(37),
                TrustChain::TC01(Root { key: PublicKey::of(input.subrange(5, 37)) }),
                (n - 1) as nat,
                with_expiry,
            )
        },
    }
}

/// Reads the root out of `input`, which must hold exactly its key.
fn read_root(input: &[u8]) -> (r: Result<Root, TrustError>)
    ensures
        r == root_of(input@),
{
    match PublicKey::from_slice(input) {
        Some(key) => Ok(Root::new(key)),
        None => Err(TrustError::InvalidTrustChain),
    }
}

/// Reads a link out of `input`, which must hold exactly its record.
fn read_link(input: &[u8], with_expiry: bool) -> (r: Result<Link, TrustError>)
    ensures
        r == link_of(input@, with_expiry),
{
    if with_expiry {
        if input.len() != EXPIRINGLINKBYTES {
            return Err(TrustError::InvalidTrustChain);
        }
        let key = PublicKey::from_slice(slice_subrange(input, 0, 32));
        let exp = Expiry::from_bytes(slice_subrange(input, 32, 38));
        let sig = Signature::from_slice(slice_subrange(input, 38, 102));
        match (key, exp, sig) {
            (Some(key), Ok(exp), Some(sig)) => Ok(Link::with_expiry(key, sig, exp)),
            _ => Err(TrustError::InvalidTrustChain),
        }
    } else {
        if input.len() != LINKBYTES {
            return Err(TrustError::InvalidTrustChain);
        }
        let key = PublicKey::from_slice(slice_subrange(input, 0, 32));
        let sig = Signature::from_slice(slice_subrange(input, 32, 96));
        match (key, sig) {
            (Some(key), Some(sig)) => Ok(Link::new(key, sig)),
            _ => Err(TrustError::InvalidTrustChain),
        }
    }
}

/// Reads the number of keys of a serialized chain from its first five bytes.
pub fn chain_length(input: &[u8]) -> (r: Result<u8, TrustError>)
    ensures
        r == chain_length_of(input@),
{
    if input.len() < 5 {
        return Err(TrustError::InvalidTrustChain);
    }
    if !bytes_equal(slice_subrange(input, 0, 4), TC_V3_HEADER.as_slice()) {
        return Err(TrustError::InvalidTrustChain);
    }
    let chain_length = input[4];
    if chain_length > MAXCHAINLINKS {
        return Err(TrustError::MaxChainLengthExceeded);
    }
    if chain_length < 1 {
        return Err(TrustError::InvalidTrustChain);
    }
    Ok(chain_length)
}

/// Parses a chain whose links carry no validity window.
pub fn trust_chain<'ks, S: RootKeysStore<'ks> + ?Sized>(input: &[u8], root_keys_store: &'ks S) -> (r:
    Result<TrustChain, TrustError>)
    ensures
        r == parsed(input@, root_keys_store, false),
        r matches Ok(chain) ==> chain.links_verify() && root_keys_store.trusts(chain.root().key@),
{
    parse(input, root_keys_store, false)
}

/// Parses a chain whose links each carry a validity window.
pub fn trust_chain_with_expiry<'ks, S: RootKeysStore<'ks> + ?Sized>(
    input: &[u8],
    root_keys_store: &'ks S,
) -> (r: Result<TrustChain, TrustError>)
    ensures
        r == parsed(input@, root_keys_store, true),
        r matches Ok(chain) ==> chain.links_verify() && root_keys_store.trusts(chain.root().key@),
{
    parse(input, root_keys_store, true)
}

fn parse<'ks, S: RootKeysStore<'ks> + ?Sized>(
    input: &[u8],
    root_keys_store: &'ks S,
    with_expiry: bool,
) -> (r: Result<TrustChain, TrustError>)
    ensures
        r == parsed(input@, root_keys_store, with_expiry),
        r matches Ok(chain) ==> chain.links_verify() && root_keys_store.trusts(chain.root().key@),
{
    let chain_length = match chain_length(input) {
        Ok(n) => n,
        Err(e) => return Err(e),
    };
    if input.len() < PREAMBLEBYTES {
        return Err(TrustError::InvalidTrustChain);
    }
    let root = match read_root(slice_subrange(input, 5, 37)) {
        Ok(root) => root,
        Err(e) => return Err(e),
    };
    proof {
        PublicKey::lemma_of_bytes(input@.subrange(5, 37));
    }
    let mut chain = match TrustChain::new(root_keys_store, root) {
        Ok(chain) => chain,
        Err(e) => return Err(e),
    };
    let width: usize = if with_expiry {
        EXPIRINGLINKBYTES
    } else {
        LINKBYTES
    };
    let mut at: usize = PREAMBLEBYTES;
    let mut left: u8 = chain_length - 1;
    assert(input@.skip(37) =~= input@.skip(at as int));
    while left > 0
        invariant
            width == link_width(with_expiry),
            PREAMBLEBYTES <= at <= input.len(),
            left < MAXCHAINLINKS,
            chain.links_verify(),
            root_keys_store.trusts(chain.root().key@),
            parsed(input@, root_keys_store, with_expiry) == links_parsed(
                input@.skip(at as int),
                chain,
                left as nat,
                with_expiry,
            ),
        decreases left,
    {
        if input.len() - at < width {
            return Err(TrustError::InvalidTrustChain);
        }
        let link = match read_link(slice_subrange(input, at, at + width), with_expiry) {
            Ok(link) => link,
            Err(e) => {
                proof {
                    assert(input@.skip(at as int).take(width as int) =~= input@.subrange(
                        at as int,
                        at + width,
                    ));
                }
                return Err(e);
            },
        };
        proof {
            assert(input@.skip(at as int).take(width as int) =~= input@.subrange(
                at as int,
                at + width,
            ));
            assert(input@.skip(at as int).skip(width as int) =~= input@.skip(at + width));
        }
        chain = match chain.append(link) {
            Ok(chain) => chain,
            Err(e) => return Err(e),
        };
        at += width;
        left -= 1;
    }
    Ok(chain)
}

/// The record of a link is as wide as its format says.
pub proof fn lemma_record_width(link: Link)
    ensures
        link.record().len() == link_width(link.exp is Some),
        link.message().len() == (if link.exp is Some {
            38int
        } else {
            32int
        }),
{
    broadcast use {PublicKey::lemma_width, Signature::lemma_width};

}

/// Reading the record of a link gives that link back.
pub proof fn lemma_record_roundtrip(link: Link)
    requires
        link.exp matches Some(exp) ==> exp.well_formed(),
    ensures
        link_of(link.record(), link.exp is Some) == Ok::<Link, TrustError>(link),
{
    broadcast use {
        PublicKey::lemma_width,
        Signature::lemma_width,
        PublicKey::lemma_of_view,
        Signature::lemma_of_view,
    };

    let record = link.record();
    assert(record.subrange(0, 32) =~= link.key@);
    match link.exp {
        Some(exp) => {
            assert(record.subrange(32, 38) =~= exp.encoding());
            assert(record.subrange(38, 102) =~= link.sig@);
            exp.lemma_codec_roundtrip();
        },
        None => {
            assert(record.subrange(32, 96) =~= link.sig@);
        },
    }
}

/// Whether the links of `chain` from position `from` on are each vouched
/// for by the key before them.
pub open spec fn verifies_from(chain: TrustChain, from: int) -> bool {
    forall|i: int| from <= i < chain.links().len() ==> #[trigger] chain.link_verifies(i)
}

/// Reading the records of the links of `chain` from link `k` on, after the
/// links before have been appended, ends in `chain` if all of them verify and
/// in `InvalidSignature` if one does not.
proof fn lemma_links_parsed(chain: TrustChain, k: int, rest: Seq<u8>, with_expiry: bool)
    requires
        0 <= k <= chain.links().len(),
        chain.uniform(with_expiry),
        chain.windows_well_formed(),
    ensures
        links_parsed(
            records(chain.links().skip(k)) + rest,
            TrustChain::of(chain.root(), chain.links().take(k)),
            (chain.links().len() - k) as nat,
            with_expiry,
        ) == (if verifies_from(chain, k) {
            Ok::<TrustChain, TrustError>(chain)
        } else {
            Err::<TrustChain, TrustError>(TrustError::InvalidSignature)
        }),
    decreases chain.links().len() - k,
{
    let links = chain.links();
    let root = chain.root();
    let before = TrustChain::of(root, links.take(k));
    chain.lemma_of_parts();
    if k == links.len() {
        assert(links.take(k) =~= links);
    } else {
        let link = links[k];
        let input = records(links.skip(k)) + rest;
        let width = link_width(with_expiry);
        lemma_records_front(links.skip(k));
        lemma_record_width(link);
        lemma_record_roundtrip(link);
        assert(links.skip(k)[0] == link);
        assert(links.skip(k).skip(1) =~= links.skip(k + 1));
        assert(input.take(width) =~= link.record());
        assert(input.skip(width) =~= records(links.skip(k + 1)) + rest);
        TrustChain::lemma_parts_of(root, links.take(k));
        assert(before.spec_len() == k + 1);
        assert(before.spec_end_key() == chain.key_at(k)) by {
            if k > 0 {
                assert(links.take(k)[k - 1] == links[k - 1]);
            }
        }
        assert(chain.link_verifies(k) == ed25519_valid(
            before.spec_end_key()@,
            link.message(),
            link.sig@,
        ));
        if chain.link_verifies(k) {
            let longer = TrustChain::of(root, links.take(k + 1));
            assert(links.take(k + 1) =~= links.take(k).push(link));
            assert(before.appended(link) == Ok::<TrustChain, TrustError>(longer)) by {
                assert(links.take(k + 1).len() == k + 1);
                assert(forall|j: int| 0 <= j < k ==> links.take(k + 1)[j] == links.take(k)[j]);
            }
            lemma_links_parsed(chain, k + 1, rest, with_expiry);
            assert(verifies_from(chain, k) == verifies_from(chain, k + 1));
        } else {
            assert(!verifies_from(chain, k));
        }
    }
}

/// Parsing what `as_bytes` wrote, whatever follows it, gives the chain back
/// if its root is trusted and each of its links is vouched for. Where the
/// root is not trusted the answer is `NoRootKeyTrust`, whatever the links
/// are; where it is and a link is not vouched for, `InvalidSignature`.
///
/// The chain must be one that this parser reads: with a validity window on
/// every link, or on none.
pub proof fn lemma_parse_wire<'ks, S: RootKeysStore<'ks> + ?Sized>(
    chain: TrustChain,
    store: &S,
    rest: Seq<u8>,
    with_expiry: bool,
)
    requires
        chain.uniform(with_expiry),
        chain.windows_well_formed(),
    ensures
        parsed(chain.wire() + rest, store, with_expiry) == (if !store.trusts(chain.root().key@) {
            Err::<TrustChain, TrustError>(TrustError::NoRootKeyTrust)
        } else if chain.links_verify() {
            Ok::<TrustChain, TrustError>(chain)
        } else {
            Err::<TrustChain, TrustError>(TrustError::InvalidSignature)
        }),
{
    broadcast use {PublicKey::lemma_width, PublicKey::lemma_of_view};

    let input = chain.wire() + rest;
    chain.lemma_of_parts();
    assert(input.take(4) =~= TC_V3_HEADER@);
    assert(input[4] == chain.spec_len() as u8);
    assert(input.subrange(5, 37) =~= chain.root().key@);
    assert(input.skip(37) =~= records(chain.links()) + rest);
    assert(chain.links().skip(0) =~= chain.links());
    assert(chain.links().take(0) =~= Seq::<Link>::empty());
    lemma_links_parsed(chain, 0, rest, with_expiry);
    assert(verifies_from(chain, 0) == chain.links_verify());
}

/// Reading links goes on from a chain without touching what it holds: the
/// chain that comes out starts with the same root, is vouched for link by link
/// if the chain it started from was, and every link that was read has the
/// format that was asked for.
pub proof fn lemma_links_parsed_sound(
    input: Seq<u8>,
    chain: TrustChain,
    count: nat,
    with_expiry: bool,
)
    ensures
        links_parsed(input, chain, count, with_expiry) matches Ok(longer) ==> {
            &&& longer.root() == chain.root()
            &&& longer.spec_len() == chain.spec_len() + count
            &&& chain.links_verify() ==> longer.links_verify()
            &&& chain.uniform(with_expiry) ==> longer.uniform(with_expiry)
        },
    decreases count,
{
    let width = link_width(with_expiry);
    if count > 0 && input.len() >= width {
        if let Ok(link) = link_of(input.take(width), with_expiry) {
            if let Ok(next) = chain.appended(link) {
                lemma_appended(chain, link);
                lemma_links_parsed_sound(
                    input.skip(width),
                    next,
                    (count - 1) as nat,
                    with_expiry,
                );
                if chain.uniform(with_expiry) {
                    assert forall|i: int| 0 <= i < next.links().len() implies ((
                    #[trigger] next.links()[i]).exp is Some) == with_expiry by {
                        if i < chain.links().len() {
                            assert(next.links()[i] == chain.links()[i]);
                        }
                    }
                }
            }
        }
    }
}

/// Whatever the bytes are, a chain that parsing yields has as many keys as
/// the bytes say, a root that the store lists, and links that are each vouched
/// for by the key before them and have the format that was asked for.
pub proof fn lemma_parsed_sound<'ks, S: RootKeysStore<'ks> + ?Sized>(
    input: Seq<u8>,
    store: &S,
    with_expiry: bool,
)
    ensures
        parsed(input, store, with_expiry) matches Ok(chain) ==> {
            &&& input.len() >= 5
            &&& chain.spec_len() == input[4]
            &&& chain.root().key@ == input.subrange(5, 37)
            &&& store.trusts(chain.root().key@)
            &&& chain.links_verify()
            &&& chain.uniform(with_expiry)
        },
{
    if let Ok(n) = chain_length_of(input) {
        if input.len() >= PREAMBLEBYTES {
            let root = Root { key: PublicKey::of(input.subrange(5, 37)) };
            PublicKey::lemma_of_bytes(input.subrange(5, 37));
            lemma_links_parsed_sound(
                input.skip(37),
                TrustChain::TC01(root),
                (n - 1) as nat,
                with_expiry,
            );
        }
    }
}

/// The link that a record spells is written as that record.
pub proof fn lemma_link_of_inverse(record: Seq<u8>, with_expiry: bool)
    ensures
        link_of(record, with_expiry) matches Ok(link) ==> {
            &&& link.record() == record
            &&& (link.exp is Some) == with_expiry
            &&& link.exp matches Some(exp) ==> exp.well_formed()
        },
{
    if let Ok(link) = link_of(record, with_expiry) {
        PublicKey::lemma_of_bytes(record.subrange(0, 32));
        if with_expiry {
            Signature::lemma_of_bytes(record.subrange(38, 102));
            Expiry::lemma_codec_inverse(record.subrange(32, 38));
            assert(record.subrange(32, 38).take(6) =~= record.subrange(32, 38));
            assert(link.record() =~= record);
        } else {
            Signature::lemma_of_bytes(record.subrange(32, 96));
            assert(link.record() =~= record);
        }
    }
}

/// The links that were read are written as the bytes that they were read
/// from: the records of the chain that comes out are those of the chain that
/// reading started from, followed by as many records of the input as links
/// were asked for.
pub proof fn lemma_links_parsed_inverse(
    input: Seq<u8>,
    chain: TrustChain,
    count: nat,
    with_expiry: bool,
)
    ensures
        links_parsed(input, chain, count, with_expiry) matches Ok(longer) ==> {
            &&& count * link_width(with_expiry) <= input.len()
            &&& records(longer.links()) == records(chain.links()) + input.take(
                count * link_width(with_expiry),
            )
        },
    decreases count,
{
    let width = link_width(with_expiry);
    if let Ok(longer) = links_parsed(input, chain, count, with_expiry) {
        if count == 0 {
            assert(input.take(0) =~= Seq::<u8>::empty());
            assert(records(chain.links()) + input.take(0) =~= records(chain.links()));
        } else {
            let link = link_of(input.take(width), with_expiry).unwrap();
            let next = chain.appended(link).unwrap();
            lemma_link_of_inverse(input.take(width), with_expiry);
            lemma_appended(chain, link);
            lemma_links_parsed_inverse(input.skip(width), next, (count - 1) as nat, with_expiry);
            let more = (count - 1) * width;
            assert(count * width == width + more) by (nonlinear_arith)
                requires
                    more == (count - 1) * width,
            ;
            assert(next.links().drop_last() =~= chain.links());
            assert(records(next.links()) == records(chain.links()) + input.take(width));
            assert(input.take(width) + input.skip(width).take(more) =~= input.take(width + more));
            assert(records(longer.links()) =~= records(chain.links()) + input.take(
                width + more,
            ));
        }
    }
}

/// A chain that parsing yields is written as the bytes that it was parsed
/// from: its serialization is the start of the input.
pub proof fn lemma_parsed_inverse<'ks, S: RootKeysStore<'ks> + ?Sized>(
    input: Seq<u8>,
    store: &S,
    with_expiry: bool,
)
    ensures
        parsed(input, store, with_expiry) matches Ok(chain) ==> {
            &&& chain.wire().len() <= input.len()
            &&& chain.wire() == input.take(chain.wire().len() as int)
        },
{
    if let Ok(chain) = parsed(input, store, with_expiry) {
        let n = input[4];
        let first = TrustChain::TC01(Root { key: PublicKey::of(input.subrange(5, 37)) });
        let body = (n - 1) * link_width(with_expiry);
        lemma_parsed_sound(input, store, with_expiry);
        lemma_links_parsed_inverse(input.skip(37), first, (n - 1) as nat, with_expiry);
        assert(records(first.links()) =~= Seq::<u8>::empty());
        assert(records(chain.links()) =~= input.skip(37).take(body));
        assert(input.take(4) == TC_V3_HEADER@);
        assert(chain.wire() =~= input.take(4) + seq![n] + input.subrange(5, 37)
            + input.skip(37).take(body));
        assert(input.take(4) + seq![n] + input.subrange(5, 37) + input.skip(37).take(body)
            =~= input.take(37 + body));
    }
}

/// The records of links that all have the same format are as long as their
/// number says.
pub proof fn lemma_records_len(links: Seq<Link>, with_expiry: bool)
    requires
        forall|i: int| 0 <= i < links.len() ==> ((#[trigger] links[i]).exp is Some) == with_expiry,
    ensures
        records(links).len() == links.len() * link_width(with_expiry),
    decreases links.len(),
{
    if links.len() > 0 {
        lemma_records_len(links.drop_last(), with_expiry);
        lemma_record_width(links.last());
        assert(records(links).len() == records(links.drop_last()).len() + link_width(
            with_expiry,
        ));
        assert(links.len() * link_width(with_expiry) == (links.len() - 1) * link_width(
            with_expiry,
        ) + link_width(with_expiry)) by (nonlinear_arith);
    }
}

/// Where things stand in a serialized chain: the header in the first four
/// bytes, the number of keys in the fifth, the key of the root in the next
/// 32, and after these 37 bytes one record of fixed width for each link.
pub proof fn lemma_wire_preamble(chain: TrustChain, with_expiry: bool)
    requires
        chain.uniform(with_expiry),
    ensures
        chain.wire().len() == 5 + 32 + (chain.spec_len() - 1) * link_width(with_expiry),
        chain.wire().subrange(0, 4) == TC_V3_HEADER@,
        chain.wire()[4] == chain.spec_len(),
        1 <= chain.spec_len() <= MAXCHAINLINKS,
        chain.wire().subrange(5, 37) == chain.root().key@,
        chain.wire().skip(37) == records(chain.links()),
{
    broadcast use PublicKey::lemma_width;

    chain.lemma_of_parts();
    lemma_records_len(chain.links(), with_expiry);
    assert(chain.wire().subrange(0, 4) =~= TC_V3_HEADER@);
    assert(chain.wire().subrange(5, 37) =~= chain.root().key@);
    assert(chain.wire().skip(37) =~= records(chain.links()));
}

/// Where record `i` stands among the records of links that all have the
/// same format: `i` widths from the start.
pub proof fn lemma_record_at(links: Seq<Link>, i: int, with_expiry: bool)
    requires
        forall|j: int| 0 <= j < links.len() ==> ((#[trigger] links[j]).exp is Some) == with_expiry,
        0 <= i < links.len(),
    ensures
        ({
            let width = link_width(with_expiry);
            &&& records(links).len() == links.len() * width
            &&& 0 <= i * width
            &&& i * width + width <= records(links).len()
            &&& records(links).subrange(i * width, i * width + width) == links[i].record()
        }),
{
    let width = link_width(with_expiry);
    let before = records(links.take(i));
    let record = links[i].record();
    let after = records(links.skip(i + 1));
    lemma_records_split(links, i);
    lemma_records_front(links.skip(i));
    lemma_records_len(links, with_expiry);
    lemma_records_len(links.take(i), with_expiry);
    lemma_record_width(links[i]);
    assert(links.skip(i)[0] == links[i]);
    assert(links.skip(i).skip(1) =~= links.skip(i + 1));
    assert(records(links) =~= before + record + after);
    let offset = i * width;
    assert(before.len() == offset);
    assert(record.len() == width);
    assert((before + record + after).subrange(offset, offset + width) =~= record);
}

/// Where link `i` stands in a serialized chain, counted from 0 for the link
/// after the root: its record starts `i` records after byte 37, with the key in
/// its first 32 bytes and the signature in its last 64. A validity window,
/// where the format has one, lies between the two.
pub proof fn lemma_wire_link(chain: TrustChain, i: int, with_expiry: bool)
    requires
        chain.uniform(with_expiry),
        0 <= i < chain.links().len(),
    ensures
        ({
            let width = link_width(with_expiry);
            let start = 37 + i * width;
            &&& start + width <= chain.wire().len()
            &&& chain.wire().subrange(start, start + width) == chain.links()[i].record()
            &&& chain.wire().subrange(start, start + 32) == chain.links()[i].key@
            &&& chain.wire().subrange(start + 32, start + width - 64)
                == chain.links()[i].expiry_bytes()
            &&& chain.wire().subrange(start + width - 64, start + width) == chain.links()[i].sig@
        }),
{
    let links = chain.links();
    let width = link_width(with_expiry);
    let offset = i * width;
    let start = 37 + offset;
    let wire = chain.wire();
    let body = records(links);
    let record = links[i].record();
    lemma_wire_preamble(chain, with_expiry);
    lemma_record_at(links, i, with_expiry);
    lemma_record_width(links[i]);
    lemma_record_fields(links[i]);
    assert(wire.skip(37) == body);
    assert(body.subrange(offset, offset + width) == record);
    assert(wire.len() == 37 + body.len());
    assert(wire.subrange(start, start + width) =~= wire.skip(37).subrange(
        offset,
        offset + width,
    ));
    assert(wire.subrange(start, start + 32) =~= wire.subrange(start, start + width).subrange(
        0,
        32,
    ));
    assert(wire.subrange(start + 32, start + width - 64) =~= wire.subrange(
        start,
        start + width,
    ).subrange(32, width - 64));
    assert(wire.subrange(start + width - 64, start + width) =~= wire.subrange(
        start,
        start + width,
    ).subrange(width - 64, width));
}

/// The fields of a record: the key in its first 32 bytes, the signature in
/// its last 64, the validity window, if there is one, between the two.
pub proof fn lemma_record_fields(link: Link)
    ensures
        ({
            let width = link_width(link.exp is Some);
            &&& link.record().len() == width
            &&& link.record().subrange(0, 32) == link.key@
            &&& link.record().subrange(32, width - 64) == link.expiry_bytes()
            &&& link.record().subrange(width - 64, width) == link.sig@
        }),
{
    broadcast use {PublicKey::lemma_width, Signature::lemma_width};

    let width = link_width(link.exp is Some);
    lemma_record_width(link);
    assert(link.record().subrange(0, 32) =~= link.key@);
    assert(link.record().subrange(32, width - 64) =~= link.expiry_bytes());
    assert(link.record().subrange(width - 64, width) =~= link.sig@);
}

/// A serialized chain that claims more keys than a chain can hold is
/// refused for that reason, whatever else it holds.
pub proof fn lemma_parse_refuses_overlong<'ks, S: RootKeysStore<'ks> + ?Sized>(
    input: Seq<u8>,
    store: &S,
    with_expiry: bool,
)
    requires
        input.len() >= 5,
        input.take(4) == TC_V3_HEADER@,
        input[4] > MAXCHAINLINKS,
    ensures
        parsed(input, store, with_expiry) == Err::<TrustChain, TrustError>(
            TrustError::MaxChainLengthExceeded,
        ),
{
}

} // verus!
