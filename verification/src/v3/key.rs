//! Ed25519 public keys as fixed-width values.
use vstd::prelude::*;
use vstd::array::spec_array_update;
use vstd::std_specs::cmp::PartialEqSpecImpl;
use crate::v3::hex::{text, to_hex};
use crate::v3::PUBLICKEYBYTES;

verus! {

/// An Ed25519 public key: exactly `PUBLICKEYBYTES` bytes, kept apart from
/// signatures by its type.
#[derive(Copy, Clone, Debug)]
pub struct PublicKey([u8; PUBLICKEYBYTES]);

impl View for PublicKey {
    type V = Seq<u8>;

    /// The bytes of the key, in order.
    closed spec fn view(&self) -> Seq<u8> {
        self.0@
    }
}

impl PublicKey {
    /// The key with the given bytes, of which there must be `PUBLICKEYBYTES`.
    pub closed spec fn of(bytes: Seq<u8>) -> PublicKey {
        choose|k: PublicKey| k@ == bytes
    }

    /// A key is the one that `of` makes from its bytes.
    pub broadcast proof fn lemma_of_view(self)
        ensures
            #[trigger] PublicKey::of(self@) == self,
    {
        self.lemma_same_bytes(PublicKey::of(self@));
    }

    /// For every string of `PUBLICKEYBYTES` bytes there is a key, and `of` names it.
    pub broadcast proof fn lemma_of_bytes(bytes: Seq<u8>)
        requires
            bytes.len() == PUBLICKEYBYTES,
        ensures
            (#[trigger] PublicKey::of(bytes))@ == bytes,
    {
        lemma_filled(bytes, PUBLICKEYBYTES as nat);
        let witness = PublicKey(filled(bytes, PUBLICKEYBYTES as nat));
        assert(witness@ =~= bytes);
    }

    /// Copies a key out of `b`, which must hold exactly `PUBLICKEYBYTES` bytes.
    pub fn from_slice(b: &[u8]) -> (key: Option<PublicKey>)
        ensures
            key == (if b@.len() == PUBLICKEYBYTES {
                Some(PublicKey::of(b@))
            } else {
                None
            }),
            key matches Some(k) ==> k@ == b@,
    {
        if b.len() != PUBLICKEYBYTES {
            return None;
        }
        let mut bytes = [0u8; PUBLICKEYBYTES];
        let mut i: usize = 0;
        while i < PUBLICKEYBYTES
            invariant
                i <= PUBLICKEYBYTES,
                b@.len() == PUBLICKEYBYTES,
                forall|j: int| 0 <= j < i ==> bytes@[j] == b@[j],
            decreases PUBLICKEYBYTES - i,
        {
            bytes[i] = b[i];
            i += 1;
        }
        assert(bytes@ =~= b@);
        let key = PublicKey(bytes);
        proof {
            key.lemma_of_view();
        }
        Some(key)
    }

    /// The bytes of the key, as an array of their own.
    pub(crate) fn to_array(&self) -> (bytes: [u8; PUBLICKEYBYTES])
        ensures
            bytes@ == self@,
    {
        self.0
    }

    /// The bytes of the key.
    pub fn as_bytes(&self) -> (bytes: &[u8])
        ensures
            bytes@ == self@,
    {
        self.0.as_slice()
    }

    /// The bytes of the key as lowercase hexadecimal digits.
    pub fn to_hex(&self) -> (s: String)
        ensures
            s@ == text(self@),
    {
        to_hex(self.0.as_slice())
    }

    /// A key is always `PUBLICKEYBYTES` wide.
    pub broadcast proof fn lemma_width(self)
        ensures
            #[trigger] self@.len() == PUBLICKEYBYTES,
    {
    }

    /// Two keys with the same bytes are the same key.
    pub proof fn lemma_same_bytes(self, other: PublicKey)
        requires
            self@ == other@,
        ensures
            self == other,
    {
        assert(self.0 =~= other.0);
    }
}

impl PartialEq for PublicKey {
    /// Byte-wise equality that looks at every byte, whether or not an earlier
    /// one already differed.
    fn eq(&self, other: &Self) -> (r: bool) {
        let mut acc: u8 = 0;
        let mut i: usize = 0;
        while i < PUBLICKEYBYTES
            invariant
                i <= PUBLICKEYBYTES,
                (acc == 0) == (forall|j: int| 0 <= j < i ==> self.0@[j] == other.0@[j]),
            decreases PUBLICKEYBYTES - i,
        {
            let l: u8 = self.0[i];
            let r: u8 = other.0[i];
            let ghost before = acc;
            acc = acc | (l ^ r);
            assert(((before | (l ^ r)) == 0) == (before == 0 && l == r)) by (bit_vector);
            i += 1;
        }
        proof {
            if acc == 0 {
                assert(self.0@ =~= other.0@);
            }
        }
        acc == 0
    }
}

impl PartialEqSpecImpl for PublicKey {
    open spec fn obeys_eq_spec() -> bool {
        true
    }

    open spec fn eq_spec(&self, other: &Self) -> bool {
        self@ == other@
    }
}

impl AsRef<[u8]> for PublicKey {
    fn as_ref(&self) -> (bytes: &[u8])
        ensures
            bytes@ == self@,
    {
        self.0.as_slice()
    }
}

/// An array whose first `n` entries are those of `bytes`.
spec fn filled(bytes: Seq<u8>, n: nat) -> [u8; PUBLICKEYBYTES]
    decreases n,
{
    if n == 0 {
        arbitrary()
    } else {
        spec_array_update(filled(bytes, (n - 1) as nat), n - 1, bytes[n - 1])
    }
}

proof fn lemma_filled(bytes: Seq<u8>, n: nat)
    requires
        n <= PUBLICKEYBYTES,
    ensures
        forall|j: int| 0 <= j < n ==> filled(bytes, n)@[j] == bytes[j],
    decreases n,
{
    if n > 0 {
        lemma_filled(bytes, (n - 1) as nat);
    }
}

} // verus!
