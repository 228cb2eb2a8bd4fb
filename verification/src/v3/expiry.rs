//! Validity windows: a first and a last day.
use vstd::prelude::*;
use vstd::slice::slice_subrange;
use crate::v3::date::{lemma_codec_inverse, lemma_codec_roundtrip, Date, DateError};
use crate::v3::error::TrustError;

verus! {

/// The first day of a validity window.
#[derive(Debug, Copy, Clone, PartialEq, Eq, PartialOrd, Ord, Structural)]
pub struct NotBefore(pub Date);

/// The last day of a validity window.
#[derive(Debug, Copy, Clone, PartialEq, Eq, PartialOrd, Ord, Structural)]
pub struct NotAfter(pub Date);

/// A validity window. Its first day never lies after its last day.
#[derive(Debug, Copy, Clone, PartialEq, Eq, Structural)]
pub struct Expiry {
    not_before: NotBefore,
    not_after: NotAfter,
}

impl NotBefore {
    pub fn date(&self) -> (date: Date)
        ensures
            date == self.0,
    {
        self.0
    }
}

impl NotAfter {
    pub fn date(&self) -> (date: Date)
        ensures
            date == self.0,
    {
        self.0
    }
}

impl View for Expiry {
    type V = (Date, Date);

    /// The first and the last day of the window.
    closed spec fn view(&self) -> (Date, Date) {
        (self.not_before.0, self.not_after.0)
    }
}

impl Expiry {
    /// The window from `not_before` to `not_after`.
    pub closed spec fn of(not_before: Date, not_after: Date) -> Expiry {
        Expiry { not_before: NotBefore(not_before), not_after: NotAfter(not_after) }
    }

    /// Whether both days exist and the first does not lie after the last.
    /// Every `Expiry` that a program holds is such a window.
    #[verifier::type_invariant]
    pub closed spec fn well_formed(self) -> bool {
        &&& self.not_before.0.exists_in_calendar()
        &&& self.not_after.0.exists_in_calendar()
        &&& !self.not_after.0.earlier_than(self.not_before.0)
    }

    /// What `new` answers: the window, unless it would end before it starts.
    pub open spec fn checked(not_before: NotBefore, not_after: NotAfter) -> Result<
        Expiry,
        TrustError,
    > {
        if not_after.0.earlier_than(not_before.0) {
            Err(TrustError::InvalidExpiry)
        } else {
            Ok(Expiry::of(not_before.0, not_after.0))
        }
    }

    /// The six bytes that encode the window: the first day, then the last.
    pub open spec fn encoding(self) -> Seq<u8> {
        self@.0.encoding() + self@.1.encoding()
    }

    /// What the first six bytes of `bytes` decode to: two dates, the first of
    /// which does not lie after the second.
    pub open spec fn decoded(bytes: Seq<u8>) -> Result<Expiry, DateError> {
        if bytes.len() < 6 {
            Err(DateError::InvalidDate)
        } else {
            match (Date::decoded(bytes.subrange(0, 3)), Date::decoded(bytes.subrange(3, 6))) {
                (Ok(not_before), Ok(not_after)) => if not_after.earlier_than(not_before) {
                    Err(DateError::InvalidDate)
                } else {
                    Ok(Expiry::of(not_before, not_after))
                },
                _ => Err(DateError::InvalidDate),
            }
        }
    }

    /// `of` and the view are inverse to each other, and the view tells
    /// whether the window is well formed.
    pub broadcast proof fn lemma_of_view(not_before: Date, not_after: Date)
        ensures
            (#[trigger] Expiry::of(not_before, not_after))@ == (not_before, not_after),
            Expiry::of(not_before, not_after).well_formed() == (not_before.exists_in_calendar()
                && not_after.exists_in_calendar() && !not_after.earlier_than(not_before)),
    {
    }

    /// A window is determined by its two days.
    pub proof fn lemma_view_determines(self)
        ensures
            self == Expiry::of(self@.0, self@.1),
    {
    }

    /// Decoding the encoding of a window gives that window back.
    pub proof fn lemma_codec_roundtrip(self)
        requires
            self.well_formed(),
        ensures
            Expiry::decoded(self.encoding()) == Ok::<Expiry, DateError>(self),
    {
        let bytes = self.encoding();
        assert(bytes.subrange(0, 3) =~= self@.0.encoding());
        assert(bytes.subrange(3, 6) =~= self@.1.encoding());
        lemma_codec_roundtrip(self@.0);
        lemma_codec_roundtrip(self@.1);
    }

    /// Encoding what bytes decode to gives the first six of those bytes back.
    pub proof fn lemma_codec_inverse(bytes: Seq<u8>)
        ensures
            Expiry::decoded(bytes) matches Ok(expiry) ==> expiry.well_formed() && expiry.encoding()
                == bytes.take(6),
    {
        if let Ok(expiry) = Expiry::decoded(bytes) {
            lemma_codec_inverse(bytes.subrange(0, 3));
            lemma_codec_inverse(bytes.subrange(3, 6));
            assert(bytes.subrange(0, 3).take(3) + bytes.subrange(3, 6).take(3) =~= bytes.take(6));
        }
    }

    /// Makes a window, unless it would end before it starts.
    pub fn new(not_before: NotBefore, not_after: NotAfter) -> (r: Result<Expiry, TrustError>)
        ensures
            r == Expiry::checked(not_before, not_after),
            r matches Ok(e) ==> e.well_formed(),
    {
        proof {
            use_type_invariant(&not_before.0);
            use_type_invariant(&not_after.0);
        }
        if not_before.date().is_after(&not_after.date()) {
            Err(TrustError::InvalidExpiry)
        } else {
            Ok(Expiry { not_before, not_after })
        }
    }

    /// Encodes the window in six bytes.
    pub fn as_bytes(&self) -> (bytes: [u8; 6])
        ensures
            bytes@ == self.encoding(),
    {
        let nb = self.not_before.0.as_bytes();
        let na = self.not_after.0.as_bytes();
        let bytes = [nb[0], nb[1], nb[2], na[0], na[1], na[2]];
        assert(bytes@ =~= self.encoding());
        bytes
    }

    /// Decodes a window from the first six bytes of `bytes`; any further
    /// bytes are not looked at.
    pub fn from_bytes(bytes: &[u8]) -> (r: Result<Expiry, DateError>)
        ensures
            r == Expiry::decoded(bytes@),
            r matches Ok(e) ==> e.well_formed(),
    {
        if bytes.len() < 6 {
            return Err(DateError::InvalidDate);
        }
        let not_before = match Date::from_bytes(slice_subrange(bytes, 0, 3)) {
            Ok(date) => date,
            Err(_) => return Err(DateError::InvalidDate),
        };
        let not_after = match Date::from_bytes(slice_subrange(bytes, 3, 6)) {
            Ok(date) => date,
            Err(_) => return Err(DateError::InvalidDate),
        };
        if not_before.is_after(&not_after) {
            return Err(DateError::InvalidDate);
        }
        Ok(Expiry { not_before: NotBefore(not_before), not_after: NotAfter(not_after) })
    }
}

} // verus!
