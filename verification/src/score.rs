use vstd::prelude::*;

verus! {

/// Score above which an idle machine opens a segment: 0.9, in thousandths.
pub const START_THRESHOLD: u16 = 900;

/// Score below which a speaking machine closes its segment: 0.4, in thousandths.
pub const END_THRESHOLD: u16 = 400;

/// Probability of speech in one conditioned frame, as a fixed-point value:
/// `value` thousandths stand for the probability `value / 1000`, so a score
/// always lies in the unit interval [0, 1].
#[derive(Clone, Copy, Debug)]
pub struct SpeechScore {
    value: u16,
}

impl SpeechScore {
    #[verifier::type_invariant]
    spec fn type_inv(self) -> bool {
        self.value <= 1000
    }

    /// The score in thousandths of full probability.
    pub closed spec fn value_permille(self) -> int {
        self.value as int
    }

    /// Builds a score from a probability given in thousandths, clamping
    /// anything above full probability down to 1000.
    pub fn from_permille(p: u16) -> (r: SpeechScore)
        ensures
            r.value_permille() == if p <= 1000 { p as int } else { 1000 },
            0 <= r.value_permille() <= 1000,
    {
        SpeechScore { value: if p <= 1000 { p } else { 1000 } }
    }

    /// The score in thousandths, as an executable value. Holds without any
    /// precondition: every speech score that can exist lies in the unit
    /// interval, at least 0 and at most 1000 thousandths.
    pub fn permille(&self) -> (r: u16)
        ensures
            r as int == self.value_permille(),
            r <= 1000,
    {
        proof {
            use_type_invariant(&*self);
        }
        self.value
    }
}

} // verus!
