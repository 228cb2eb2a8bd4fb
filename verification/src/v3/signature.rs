//! Ed25519 signatures as fixed-width values.
use vstd::prelude::*;
use vstd::array::spec_array_update;
use vstd::std_specs::cmp::PartialEqSpecImpl;
use crate::v3::hex::{text, to_hex};
use crate::v3::SIGNATUREBYTES;

verus! {

/// An Ed25519 signature: exactly `SIGNATUREBYTES` bytes, kept apart from
/// public keys by its type.
#[derive(Copy, Clone, Debug)]
pub struct Signature([u8; SIGNATUREBYTES]);

impl View for Signature {
    type V = Seq<u8>;

    /// The bytes of the signature, in order.
    closed spec fn view(&self) -> Seq<u8> {
        self.0@
    }
}

impl Signature {
    /// The signature with the given bytes, of which there must be `SIGNATUREBYTES`.
    pub closed spec fn of(bytes: Seq<u8>) -> Signature {
        choose|s: Signature| s@ == bytes
    }

    /// A signature is the one that `of` makes from its bytes.
    pub broadcast proof fn lemma_of_view(self)
        ensures
            #[trigger] Signature::of(self@) == self,
    {
        self.lemma_same_bytes(Signature::of(self@));
    }

    /// For every string of `SIGNATUREBYTES` bytes there is a signature, and `of` names it.
    pub broadcast proof fn lemma_of_bytes(bytes: Seq<u8>)
        requires
            bytes.len() == SIGNATUREBYTES,
        ensures
            (#[trigger] Signature::of(bytes))@ == bytes,
    {
        lemma_filled(bytes, SIGNATUREBYTES as nat);
        let witness = Signature(filled(bytes, SIGNATUREBYTES as nat));
        assert(witness@ =~= bytes);
    }

    /// Copies a signature out of `b`, which must hold exactly `SIGNATUREBYTES` bytes.
    pub fn from_slice(b: &[u8]) -> (sig: Option<Signature>)
        ensures
            sig == (if b@.len() == SIGNATUREBYTES {
                Some(Signature::of(b@))
            } else {
                None
            }),
            sig matches Some(s) ==> s@ == b@,
    {
        if b.len() != SIGNATUREBYTES {
            return None;
        }
        let mut bytes = [0u8; SIGNATUREBYTES];
        let mut i: usize = 0;
        while i < SIGNATUREBYTES
            invariant
                i <= SIGNATUREBYTES,
                b@.len() == SIGNATUREBYTES,
                forall|j: int| 0 <= j < i ==> bytes@[j] == b@[j],
            decreases SIGNATUREBYTES - i,
        {
            bytes[i] = b[i];
            i += 1;
        }
        assert(bytes@ =~= b@);
        let sig = Signature(bytes);
        proof {
            sig.lemma_of_view();
        }
        Some(sig)
    }

    /// The bytes of the signature, as an array of their own.
    pub(crate) fn to_array(&self) -> (bytes: [u8; SIGNATUREBYTES])
        ensures
            bytes@ == self@,
    {
        self.0
    }

    /// The bytes of the signature.
    pub fn as_bytes(&self) -> (bytes: &[u8])
        ensures
            bytes@ == self@,
    {
        self.0.as_slice()
    }

    /// The bytes of the signature as lowercase hexadecimal digits.
    pub fn to_hex(&self) -> (s: String)
        ensures
            s@ == text(self@),
    {
        to_hex(self.0.as_slice())
    }

    /// A signature is always `SIGNATUREBYTES` wide.
    pub broadcast proof fn lemma_width(self)
        ensures
            #[trigger] self@.len() == SIGNATUREBYTES,
    {
    }

    /// Two signatures with the same bytes are the same signature.
    pub proof fn lemma_same_bytes(self, other: Signature)
        requires
            self@ == other@,
        ensures
            self == other,
    {
        assert(self.0 =~= other.0);
    }
}

impl PartialEq for Signature {
    /// Byte-wise equality that looks at every byte, whether or not an earlier
    /// one already differed.
    fn eq(&self, other: &Self) -> (r: bool) {
        let mut acc: u8 = 0;
        let mut i: usize = 0;
        while i < SIGNATUREBYTES
            invariant
                i <= SIGNATUREBYTES,
                (acc == 0) == (forall|j: int| 0 <= j < i ==> self.0@[j] == other.0@[j]),
            decreases SIGNATUREBYTES - i,
        {
            let l: u8 = self.0[i];
            let r: u8 = other.0[i];
            let ghost before = acc;
            acc = acc | (l ^ r);
            assert(((before | (l ^ r)) == 0) == (before == 0 && l == r)) by (bit_vector);
            i += 1;
        }
        proof {
            if acc == 0 {
                assert(self.0@ =~= other.0@);
            }
        }
        acc == 0
    }
}

impl PartialEqSpecImpl for Signature {
    open spec fn obeys_eq_spec() -> bool {
        true
    }

    open spec fn eq_spec(&self, other: &Self) -> bool {
        self@ == other@
    }
}

impl AsRef<[u8]> for Signature {
    fn as_ref(&self) -> (bytes: &[u8])
        ensures
            bytes@ == self@,
    {
        self.0.as_slice()
    }
}

/// An array whose first `n` entries are those of `bytes`.
spec fn filled(bytes: Seq<u8>, n: nat) -> [u8; SIGNATUREBYTES]
    decreases n,
{
    if n == 0 {
        arbitrary()
    } else {
        spec_array_update(filled(bytes, (n - 1) as nat), n - 1, bytes[n - 1])
    }
}

proof fn lemma_filled(bytes: Seq<u8>, n: nat)
    requires
        n <= SIGNATUREBYTES,
    ensures
        forall|j: int| 0 <= j < n ==> filled(bytes, n)@[j] == bytes[j],
    decreases n,
{
    if n > 0 {
        lemma_filled(bytes, (n - 1) as nat);
    }
}

} // verus!
