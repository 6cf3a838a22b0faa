//! Detection of DTS streams in PCM data, so that they are not played as noise.

use vstd::prelude::*;

use crate::bytes::{be_u32, be_u32_at};

verus! {

/// Sync word, 16 bits to a sample, big-endian.
pub const DTS_SYNC_16_BE: u32 = 0x7FFE8001;

/// Sync word, 16 bits to a sample, little-endian.
pub const DTS_SYNC_16_LE: u32 = 0xFE7F0180;

/// Sync word, 14 bits to a sample, big-endian.
pub const DTS_SYNC_14_BE: u32 = 0x1FFFE800;

/// Sync word, 14 bits to a sample, little-endian.
pub const DTS_SYNC_14_LE: u32 = 0xFF1F00E8;

/// Whether a word is a sync word.
pub open spec fn is_sync(word: int) -> bool {
    ||| word == DTS_SYNC_16_BE
    ||| word == DTS_SYNC_16_LE
    ||| word == DTS_SYNC_14_BE
    ||| word == DTS_SYNC_14_LE
}

/// Number of sync words that begin at the first `n` bytes.
pub open spec fn byte_syncs(data: Seq<u8>, n: int) -> int
    decreases n,
{
    if n <= 0 {
        0
    } else {
        byte_syncs(data, n - 1) + if is_sync(be_u32(data, n - 1)) {
            1int
        } else {
            0
        }
    }
}

/// Number of places where a sync word can begin.
pub open spec fn word_places(len: int) -> int {
    if len < 4 {
        0
    } else {
        len - 3
    }
}

/// A sample as an unsigned 16-bit number.
pub open spec fn low16(s: i16) -> int {
    if s < 0 {
        s + 0x1_0000
    } else {
        s as int
    }
}

/// The word made of the `n`-th sample and the one before it, which for the first
/// sample is the lower half of `window`.
pub open spec fn word_at(window: u32, samples: Seq<i16>, n: int) -> int {
    let before = if n == 0 {
        window as int % 0x1_0000
    } else {
        low16(samples[n - 1])
    };
    before * 0x1_0000 + low16(samples[n])
}

/// Number of sync words that end at the first `n` samples.
pub open spec fn sample_syncs(window: u32, samples: Seq<i16>, n: int) -> int
    decreases n,
{
    if n <= 0 {
        0
    } else {
        sample_syncs(window, samples, n - 1) + if is_sync(word_at(window, samples, n - 1)) {
            1int
        } else {
            0
        }
    }
}

/// The last two samples, as a word.
pub open spec fn window_after(window: u32, samples: Seq<i16>) -> int {
    if samples.len() == 0 {
        window as int
    } else {
        word_at(window, samples, samples.len() - 1)
    }
}

fn is_sync_word(word: u32) -> (r: bool)
    ensures
        r == is_sync(word as int),
{
    word == DTS_SYNC_16_BE || word == DTS_SYNC_16_LE || word == DTS_SYNC_14_BE || word
        == DTS_SYNC_14_LE
}

/// Looks for DTS in a stream; two sync words are taken for it.
#[derive(Debug, Clone, Copy, PartialEq, Eq, Structural)]
pub struct DtsDetector {
    detected: bool,
    sync_count: usize,
    sample_window: u32,
}

impl Default for DtsDetector {
    fn default() -> (r: Self)
        ensures
            r.is_fresh(),
            !r.found(),
            r.syncs() == 0,
            r.window() == 0,
    {
        Self::new()
    }
}

impl DtsDetector {
    #[verifier::type_invariant]
    spec fn counts(self) -> bool {
        !self.detected ==> self.sync_count <= 1
    }

    /// Whether DTS was found.
    pub closed spec fn found(self) -> bool {
        self.detected
    }

    /// Sync words seen so far.
    pub closed spec fn syncs(self) -> int {
        self.sync_count as int
    }

    /// The last two samples, as a word.
    pub closed spec fn window(self) -> u32 {
        self.sample_window
    }

    /// Nothing was seen yet.
    pub open spec fn is_fresh(self) -> bool {
        !self.found() && self.syncs() == 0 && self.window() == 0
    }

    /// A detector that has seen nothing.
    pub fn new() -> (r: Self)
        ensures
            r.is_fresh(),
            !r.found(),
            r.syncs() == 0,
            r.window() == 0,
    {
        DtsDetector { detected: false, sync_count: 0, sample_window: 0 }
    }

    /// Forgets what was seen.
    pub fn reset(&mut self)
        ensures
            final(self).is_fresh(),
            !final(self).found(),
            final(self).syncs() == 0,
            final(self).window() == 0,
    {
        *self = DtsDetector { detected: false, sync_count: 0, sample_window: 0 };
    }

    /// Whether DTS was found.
    pub fn is_dts(&self) -> (r: bool)
        ensures
            r == self.found(),
    {
        self.detected
    }

    /// Scans bytes for sync words. Once DTS was found it stays found.
    pub fn feed_bytes(&mut self, data: &[u8]) -> (r: bool)
        ensures
            r == final(self).found(),
            ({
                let total = old(self).syncs() + byte_syncs(
                    data@,
                    word_places(data@.len() as int),
                );
                &&& final(self).found() == (old(self).found() || total >= 2)
                &&& !final(self).found() ==> final(self).syncs() == total && final(self).window()
                    == old(self).window()
            }),
    {
        proof {
            use_type_invariant(&*self);
        }
        if self.detected {
            return true;
        }
        if data.len() < 4 {
            return false;
        }
        let places: usize = data.len() - 3;
        let mut count: usize = self.sync_count;
        let mut i: usize = 0;
        while i < places
            invariant
                i <= places,
                places == data@.len() - 3,
                count <= 1,
                count == old(self).syncs() + byte_syncs(data@, i as int),
                !old(self).found(),
                *self == *old(self),
            decreases places - i,
        {
            assert(i + 4 <= data.len());
            let word: u32 = be_u32_at(data, i);
            if is_sync_word(word) {
                count += 1;
                if count >= 2 {
                    proof {
                        lemma_byte_syncs_grow(data@, i + 1, places as int);
                    }
                    *self = DtsDetector {
                        detected: true,
                        sync_count: count,
                        sample_window: self.sample_window,
                    };
                    return true;
                }
            }
            i += 1;
        }
        *self = DtsDetector {
            detected: false,
            sync_count: count,
            sample_window: self.sample_window,
        };
        false
    }

    /// Scans 16-bit samples for sync words of two samples each, also across
    /// calls. Once DTS was found it stays found.
    pub fn feed_samples_s16(&mut self, samples: &[i16]) -> (r: bool)
        ensures
            r == final(self).found(),
            ({
                let n = samples@.len() as int;
                let total = old(self).syncs() + sample_syncs(old(self).window(), samples@, n);
                &&& final(self).found() == (old(self).found() || total >= 2)
                &&& !final(self).found() ==> final(self).syncs() == total && final(self).window()
                    == window_after(old(self).window(), samples@)
            }),
    {
        proof {
            use_type_invariant(&*self);
        }
        if self.detected {
            return true;
        }
        let n: usize = samples.len();
        let mut count: usize = self.sync_count;
        let mut window: u32 = self.sample_window;
        let mut i: usize = 0;
        let ghost start = self.sample_window;
        while i < n
            invariant
                i <= n,
                n == samples@.len(),
                count <= 1,
                start == old(self).window(),
                window == if i == 0 {
                    start as int
                } else {
                    word_at(start, samples@, i - 1)
                },
                count == old(self).syncs() + sample_syncs(start, samples@, i as int),
                !old(self).found(),
                *self == *old(self),
            decreases n - i,
        {
            let s: i16 = samples[i];
            let low: u16 = s as u16;
            proof {
                assert(s < 0 ==> s as u16 == s + 0x1_0000) by (bit_vector);
                assert(s >= 0 ==> s as u16 == s) by (bit_vector);
                assert((window << 16) | (low as u32) == (window % 0x1_0000) * 0x1_0000 + low)
                    by (bit_vector);
                if i > 0 {
                    let hi = if i == 1 {
                        start as int % 0x1_0000
                    } else {
                        low16(samples@[i - 2])
                    };
                    assert(window == hi * 0x1_0000 + low16(samples@[i - 1]));
                    assert(window as int % 0x1_0000 == low16(samples@[i - 1]));
                }
            }
            window = (window << 16) | (low as u32);
            assert(window == word_at(start, samples@, i as int));
            if is_sync_word(window) {
                count += 1;
                if count >= 2 {
                    proof {
                        lemma_sample_syncs_grow(start, samples@, i + 1, n as int);
                    }
                    *self = DtsDetector { detected: true, sync_count: count, sample_window: window };
                    return true;
                }
            }
            i += 1;
        }
        *self = DtsDetector { detected: false, sync_count: count, sample_window: window };
        false
    }
}

proof fn lemma_byte_syncs_grow(data: Seq<u8>, i: int, n: int)
    requires
        i <= n,
    ensures
        byte_syncs(data, i) <= byte_syncs(data, n),
    decreases n - i,
{
    if i < n {
        lemma_byte_syncs_grow(data, i, n - 1);
        if n <= 0 {
            assert(byte_syncs(data, i) == 0);
        }
    }
}

proof fn lemma_sample_syncs_grow(window: u32, samples: Seq<i16>, i: int, n: int)
    requires
        i <= n,
    ensures
        sample_syncs(window, samples, i) <= sample_syncs(window, samples, n),
    decreases n - i,
{
    if i < n {
        lemma_sample_syncs_grow(window, samples, i, n - 1);
        if n <= 0 {
            assert(sample_syncs(window, samples, i) == 0);
        }
    }
}

/// Samples may come in pieces: the sync words of a stream are those of its first
/// piece and those of its second with the first one's last samples before it.
pub proof fn law_sample_syncs_join(window: u32, a: Seq<i16>, b: Seq<i16>, n: int)
    requires
        0 <= n <= b.len(),
    ensures
        sample_syncs(window, a + b, a.len() + n) == sample_syncs(window, a, a.len() as int)
            + sample_syncs(window_after(window, a) as u32, b, n),
        window_after(window, a + b) == window_after(window_after(window, a) as u32, b),
    decreases n,
{
    lemma_window_joins(window, a, b);
    if n == 0 {
        lemma_syncs_of_prefix(window, a, b, a.len() as int);
    } else {
        law_sample_syncs_join(window, a, b, n - 1);
        lemma_word_joins(window, a, b, n - 1);
    }
}

proof fn lemma_syncs_of_prefix(window: u32, a: Seq<i16>, b: Seq<i16>, n: int)
    requires
        0 <= n <= a.len(),
    ensures
        sample_syncs(window, a + b, n) == sample_syncs(window, a, n),
    decreases n,
{
    if n > 0 {
        lemma_syncs_of_prefix(window, a, b, n - 1);
    }
}

proof fn lemma_word_joins(window: u32, a: Seq<i16>, b: Seq<i16>, n: int)
    requires
        0 <= n < b.len(),
    ensures
        word_at(window, a + b, a.len() + n) == word_at(window_after(window, a) as u32, b, n),
{
    if n == 0 && a.len() > 0 {
        let last = low16(a[a.len() - 1]);
        let hi = if a.len() == 1 {
            window as int % 0x1_0000
        } else {
            low16(a[a.len() - 2])
        };
        assert(window_after(window, a) == hi * 0x1_0000 + last);
        assert((hi * 0x1_0000 + last) % 0x1_0000 == last);
    }
}

proof fn lemma_window_joins(window: u32, a: Seq<i16>, b: Seq<i16>)
    ensures
        window_after(window, a + b) == window_after(window_after(window, a) as u32, b),
{
    if b.len() == 0 {
        assert(a + b =~= a);
        if a.len() > 0 {
            assert(0 <= window_after(window, a) <= u32::MAX);
        }
    } else {
        lemma_word_joins(window, a, b, b.len() - 1);
    }
}

/// A place counts where the four bytes from there on are one of the four words that a
/// frame begins with, in either order and width; the last place is four bytes before
/// the end.
pub proof fn law_frames_begin_with_a_sync_word(data: Seq<u8>, at: int)
    requires
        0 <= at,
        at + 4 <= data.len(),
    ensures
        ({
            let b = data.subrange(at, at + 4);
            byte_syncs(data, at + 1) - byte_syncs(data, at) == if b == seq![
                127u8,
                254u8,
                128u8,
                1u8,
            ] || b == seq![254u8, 127u8, 1u8, 128u8] || b == seq![31u8, 255u8, 232u8, 0u8] || b
                == seq![255u8, 31u8, 0u8, 232u8] {
                1int
            } else {
                0
            }
        }),
        word_places(data.len() as int) == data.len() - 3,
        byte_syncs(data, 0) == 0,
        word_places(3) == 0,
{
    let b = data.subrange(at, at + 4);
    assert(b[0] == data[at] && b[1] == data[at + 1] && b[2] == data[at + 2] && b[3] == data[at
        + 3]);
    let word = be_u32(data, at);
    reveal(be_u32);
    lemma_bytes_of_a_word(b[0], b[1], b[2], b[3]);
    if word == 0x7FFE8001 {
        assert(b =~= seq![127u8, 254u8, 128u8, 1u8]);
    }
    if word == 0xFE7F0180 {
        assert(b =~= seq![254u8, 127u8, 1u8, 128u8]);
    }
    if word == 0x1FFFE800 {
        assert(b =~= seq![31u8, 255u8, 232u8, 0u8]);
    }
    if word == 0xFF1F00E8 {
        assert(b =~= seq![255u8, 31u8, 0u8, 232u8]);
    }
}

proof fn lemma_bytes_of_a_word(a: u8, b: u8, c: u8, d: u8)
    ensures
        ({
            let word = 0x100_0000 * a + 0x1_0000 * b + 0x100 * c + d;
            &&& word == 0x7FFE8001 ==> a == 127 && b == 254 && c == 128 && d == 1
            &&& word == 0xFE7F0180 ==> a == 254 && b == 127 && c == 1 && d == 128
            &&& word == 0x1FFFE800 ==> a == 31 && b == 255 && c == 232 && d == 0
            &&& word == 0xFF1F00E8 ==> a == 255 && b == 31 && c == 0 && d == 232
        }),
{
}

/// In samples of 16 bits the word is two samples that follow each other, the first
/// of them perhaps the last one of the samples before.
pub proof fn law_a_sync_word_is_two_samples(window: u32, samples: Seq<i16>, at: int)
    requires
        0 <= at < samples.len(),
    ensures
        ({
            let a: int = if at == 0 {
                window as int % 65_536
            } else if samples[at - 1] < 0 {
                samples[at - 1] + 65_536
            } else {
                samples[at - 1] as int
            };
            let b = samples[at] as int;
            sample_syncs(window, samples, at + 1) - sample_syncs(window, samples, at) == if (a
                == 32_766 && b == -32_767) || (a == 65_151 && b == 384) || (a == 8_191 && b
                == -6_144) || (a == 65_311 && b == 232) {
                1int
            } else {
                0
            }
        }),
        sample_syncs(window, samples, 0) == 0,
        window_after(window, samples) % 65_536 == if samples.last() < 0 {
            samples.last() + 65_536
        } else {
            samples.last() as int
        },
{
}

} // verus!
