//! Detection of HDCD control codes in the lowest bits of 16-bit samples.

use vstd::prelude::*;

verus! {

/// Odd samples beyond which a stream counts as HDCD.
pub const HDCD_THRESHOLD: usize = 32;

/// Number of odd samples.
pub open spec fn odd_samples(s: Seq<i16>) -> int
    decreases s.len(),
{
    if s.len() == 0 {
        0
    } else {
        odd_samples(s.drop_last()) + if s.last() as int % 2 == 1 {
            1int
        } else {
            0
        }
    }
}

/// A count of odd samples after `more` of them, as far as it can be counted.
pub open spec fn counted(count: usize, more: int) -> int {
    if count + more > usize::MAX {
        usize::MAX as int
    } else {
        count + more
    }
}

/// Looks for HDCD in a stream of samples.
#[derive(Debug, Clone, Copy, PartialEq, Eq, Structural)]
pub struct HdcdProcessor {
    pub peak_extend_enabled: bool,
    pub detected: bool,
    pub control_counter: usize,
}

impl Default for HdcdProcessor {
    fn default() -> (r: Self)
        ensures
            r == (HdcdProcessor {
                peak_extend_enabled: true,
                detected: false,
                control_counter: 0,
            }),
    {
        Self::new()
    }
}

impl HdcdProcessor {
    /// A processor that has seen nothing, with peak extension on.
    pub fn new() -> (r: Self)
        ensures
            r == (HdcdProcessor {
                peak_extend_enabled: true,
                detected: false,
                control_counter: 0,
            }),
    {
        HdcdProcessor { peak_extend_enabled: true, detected: false, control_counter: 0 }
    }

    /// Whether HDCD was found.
    pub fn is_hdcd_detected(&self) -> (r: bool)
        ensures
            r == self.detected,
    {
        self.detected
    }

    /// The processor once it has scanned samples: HDCD is found with the first
    /// odd sample beyond the threshold.
    pub open spec fn scanned(self, samples: Seq<i16>) -> HdcdProcessor {
        let more = odd_samples(samples);
        HdcdProcessor {
            detected: self.detected || more > 0 && self.control_counter + more > HDCD_THRESHOLD,
            control_counter: counted(self.control_counter, more) as usize,
            ..self
        }
    }

    /// Scans samples.
    pub fn scan_samples_s16(&mut self, samples: &[i16])
        ensures
            *final(self) == old(self).scanned(samples@),
    {
        let n: usize = samples.len();
        let mut i: usize = 0;
        assert(samples@.take(0) =~= Seq::empty());
        while i < n
            invariant
                i <= n,
                n == samples@.len(),
                *self == old(self).scanned(samples@.take(i as int)),
                0 <= odd_samples(samples@.take(i as int)) <= i,
            decreases n - i,
        {
            let s: i16 = samples[i];
            assert(samples@.take(i + 1).drop_last() =~= samples@.take(i as int));
            assert((s & 1i16 == 1i16) == (s % 2 == 1)) by (bit_vector);
            if s & 1i16 == 1i16 {
                if self.control_counter < usize::MAX {
                    self.control_counter = self.control_counter + 1;
                }
                if self.control_counter > HDCD_THRESHOLD {
                    self.detected = true;
                }
            }
            i += 1;
        }
        assert(samples@.take(n as int) =~= samples@);
    }
}

/// Scanning a stream in pieces finds what scanning it at once finds.
pub proof fn law_hdcd_scan_joins(p: HdcdProcessor, a: Seq<i16>, b: Seq<i16>)
    ensures
        p.scanned(a).scanned(b) == p.scanned(a + b),
{
    lemma_odd_joins(a, b);
    lemma_odd_nonnegative(a);
    lemma_odd_nonnegative(b);
}

proof fn lemma_odd_nonnegative(s: Seq<i16>)
    ensures
        0 <= odd_samples(s),
    decreases s.len(),
{
    if s.len() > 0 {
        lemma_odd_nonnegative(s.drop_last());
    }
}

proof fn lemma_odd_joins(a: Seq<i16>, b: Seq<i16>)
    ensures
        odd_samples(a + b) == odd_samples(a) + odd_samples(b),
    decreases b.len(),
{
    if b.len() == 0 {
        assert(a + b =~= a);
    } else {
        lemma_odd_joins(a, b.drop_last());
        assert((a + b).drop_last() =~= a + b.drop_last());
    }
}

/// A sample counts where its lowest bit is set; more than thirty-two of them, in one
/// piece or in several, tell of the coding, and it is not untold.
pub proof fn law_thirty_three_marked_samples_tell(p: HdcdProcessor, samples: Seq<i16>, x: i16)
    requires
        p.control_counter + samples.len() + 1 <= usize::MAX,
    ensures
        odd_samples(samples.push(x)) == odd_samples(samples) + x as int % 2,
        odd_samples(Seq::empty()) == 0,
        p.detected ==> p.scanned(samples).detected,
        !p.detected && p.control_counter <= 32 ==> (p.scanned(samples).detected
            <==> p.control_counter + odd_samples(samples) > 32),
        p.scanned(samples).control_counter == p.control_counter + odd_samples(samples),
{
    assert(samples.push(x).drop_last() =~= samples);
    lemma_odd_nonnegative(samples);
    lemma_odd_bounded(samples);
}

proof fn lemma_odd_bounded(s: Seq<i16>)
    ensures
        odd_samples(s) <= s.len(),
    decreases s.len(),
{
    if s.len() > 0 {
        lemma_odd_bounded(s.drop_last());
    }
}

} // verus!
