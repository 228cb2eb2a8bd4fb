//! The trust anchor: the set of root keys that are trusted without proof.
use vstd::prelude::*;
use crate::v3::key::PublicKey;

verus! {

/// A collection of trusted root keys. A chain asks it one question, once,
/// when the chain is created: is this key one of yours?
pub trait RootKeysStore<'ks> {
    /// Whether the store lists a key with exactly the bytes `candidate`. A
    /// store that is verified says here what it lists; of any other store
    /// nothing more is known than that `contains_root_key` answers by it.
    open spec fn trusts(&self, candidate: Seq<u8>) -> bool {
        arbitrary()
    }

    /// Looks `candidate` up by the value of its bytes.
    fn contains_root_key<'a>(&'ks self, candidate: &'a [u8]) -> (found: bool)
        ensures
            found == self.trusts(candidate@),
    ;
}

impl<'ks> RootKeysStore<'ks> for Vec<PublicKey> {
    open spec fn trusts(&self, candidate: Seq<u8>) -> bool {
        exists|i: int| 0 <= i < self@.len() && (#[trigger] self@[i])@ == candidate
    }

    /// A linear scan that compares each trusted key in full.
    fn contains_root_key<'a>(&'ks self, candidate: &'a [u8]) -> (found: bool) {
        let mut found = false;
        let mut i: usize = 0;
        while i < self.len()
            invariant
                i <= self.len(),
                found == (exists|j: int| 0 <= j < i && (#[trigger] self@[j])@ == candidate@),
            decreases self.len() - i,
        {
            if bytes_equal(self[i].as_bytes(), candidate) {
                found = true;
            }
            i += 1;
        }
        found
    }
}

/// Compares two byte strings of any lengths. When the lengths agree, every
/// pair of bytes is looked at.
pub(crate) fn bytes_equal(a: &[u8], b: &[u8]) -> (same: bool)
    ensures
        same == (a@ == b@),
{
    if a.len() != b.len() {
        return false;
    }
    let mut acc: u8 = 0;
    let mut i: usize = 0;
    while i < a.len()
        invariant
            i <= a.len(),
            a@.len() == b@.len(),
            (acc == 0) == (forall|j: int| 0 <= j < i ==> a@[j] == b@[j]),
        decreases a.len() - i,
    {
        let l: u8 = a[i];
        let r: u8 = b[i];
        let ghost before = acc;
        acc = acc | (l ^ r);
        assert(((before | (l ^ r)) == 0) == (before == 0 && l == r)) by (bit_vector);
        i += 1;
    }
    proof {
        if acc == 0 {
            assert(a@ =~= b@);
        }
    }
    acc == 0
}

} // verus!
