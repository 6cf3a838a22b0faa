//! Detection of MQA in the lowest bits of stereo PCM: the exclusive or of left
//! and right carries a 36-bit mark at one of a few bit positions.

use vstd::prelude::*;

verus! {

/// The mark.
pub const MQA_MAGIC_36: u64 = 0xBE0498C88;

/// The width of the mark, as a mask.
pub const MQA_MASK_36: u64 = 0xFFFFFFFFF;

/// The last 36 bits, once another one came in.
pub open spec fn shifted(reg: u64, bit: u32) -> u64 {
    ((2 * reg + bit) % 0x10_0000_0000) as u64
}

/// A bit of a word.
pub open spec fn bit_of(word: u32, position: u32) -> u32 {
    (word >> position) & 1u32
}

/// Where left and right differ, for 16-bit samples.
pub open spec fn differing16(left: i16, right: i16) -> u32 {
    (left as u16 as u32) ^ (right as u16 as u32)
}

/// Where left and right differ, for 32-bit samples.
pub open spec fn differing32(left: i32, right: i32) -> u32 {
    (left as u32) ^ (right as u32)
}

/// The words of the stereo pairs of 16-bit samples.
pub open spec fn words16(samples: Seq<i16>) -> Seq<u32> {
    Seq::new(
        (samples.len() / 2) as nat,
        |i: int| differing16(samples[2 * i], samples[2 * i + 1]),
    )
}

/// The words of the stereo pairs of 32-bit samples.
pub open spec fn words32(samples: Seq<i32>) -> Seq<u32> {
    Seq::new(
        (samples.len() / 2) as nat,
        |i: int| differing32(samples[2 * i], samples[2 * i + 1]),
    )
}

/// The last 36 bits at a position, after `n` words.
pub open spec fn register(reg: u64, words: Seq<u32>, position: u32, n: int) -> u64
    decreases n,
{
    if n <= 0 {
        reg
    } else {
        shifted(register(reg, words, position, n - 1), bit_of(words[n - 1], position))
    }
}

/// Whether the mark shows up at a position with one of the first `n` words.
pub open spec fn marked(reg: u64, words: Seq<u32>, position: u32, n: int) -> bool {
    exists|k: int| 0 < k <= n && #[trigger] register(reg, words, position, k) == MQA_MAGIC_36
}

/// Bit positions that are looked at in 16-bit and 24-bit samples.
pub open spec fn positions_low() -> Seq<u32> {
    seq![0u32, 1u32, 2u32, 3u32]
}

/// Bit positions that are looked at in samples of 32 bits, which may hold 24 in
/// their upper part.
pub open spec fn positions_wide() -> Seq<u32> {
    seq![0u32, 1u32, 2u32, 8u32]
}

/// Whether the mark shows up at any of four positions.
pub open spec fn any_marked(
    regs: Seq<u64>,
    words: Seq<u32>,
    positions: Seq<u32>,
    n: int,
) -> bool {
    ||| marked(regs[0], words, positions[0], n)
    ||| marked(regs[1], words, positions[1], n)
    ||| marked(regs[2], words, positions[2], n)
    ||| marked(regs[3], words, positions[3], n)
}

/// Looks for MQA in a stream.
#[derive(Debug, Clone, Copy)]
pub struct MqaDetector {
    regs: [u64; 4],
    detected: bool,
}

impl Default for MqaDetector {
    fn default() -> (r: Self)
        ensures
            r.is_fresh(),
            !r.found(),
            r.registers() == seq![0u64, 0u64, 0u64, 0u64],
    {
        Self::new()
    }
}

impl MqaDetector {
    /// Whether MQA was found.
    pub closed spec fn found(self) -> bool {
        self.detected
    }

    /// The last 36 bits at each of the four positions.
    pub closed spec fn registers(self) -> Seq<u64> {
        self.regs@
    }

    /// Nothing was seen yet.
    pub open spec fn is_fresh(self) -> bool {
        !self.found() && self.registers() == seq![0u64, 0u64, 0u64, 0u64]
    }

    /// What scanning words comes to: MQA is found, now or before, or the
    /// registers have taken in every word.
    pub open spec fn scanned(self, before: Self, words: Seq<u32>, positions: Seq<u32>) -> bool {
        let n = words.len() as int;
        let regs = before.registers();
        &&& self.found() == (before.found() || any_marked(regs, words, positions, n))
        &&& !self.found() ==> self.registers() == seq![
            register(regs[0], words, positions[0], n),
            register(regs[1], words, positions[1], n),
            register(regs[2], words, positions[2], n),
            register(regs[3], words, positions[3], n),
        ]
    }

    /// A detector that has seen nothing.
    pub fn new() -> (r: Self)
        ensures
            r.is_fresh(),
            !r.found(),
            r.registers() == seq![0u64, 0u64, 0u64, 0u64],
    {
        let r = MqaDetector { regs: [0, 0, 0, 0], detected: false };
        assert(r.registers() =~= seq![0u64, 0u64, 0u64, 0u64]);
        r
    }

    /// Forgets what was seen.
    pub fn reset(&mut self)
        ensures
            final(self).is_fresh(),
            !final(self).found(),
            final(self).registers() == seq![0u64, 0u64, 0u64, 0u64],
    {
        *self = Self::new();
    }

    /// Whether MQA was found.
    pub fn is_mqa(&self) -> (r: bool)
        ensures
            r == self.found(),
    {
        self.detected
    }

    /// Takes in a bit at one position; true where the mark is complete.
    fn take_bit(&mut self, index: usize, word: u32, position: u32) -> (r: bool)
        requires
            index < 4,
            position < 32,
        ensures
            ({
                let reg = shifted(old(self).registers()[index as int], bit_of(word, position));
                &&& final(self).registers() == old(self).registers().update(index as int, reg)
                &&& r == (reg == MQA_MAGIC_36)
                &&& final(self).found() == (old(self).found() || r)
            }),
    {
        let bit: u64 = ((word >> position) & 1u32) as u64;
        let reg: u64 = self.regs[index];
        proof {
            assert((word >> position) & 1u32 <= 1) by (bit_vector);
            assert(((reg << 1) | bit) & 0xFFFFFFFFFu64 == (2 * reg + bit) % 0x10_0000_0000)
                by (bit_vector)
                requires
                    bit <= 1,
            ;
        }
        let next: u64 = ((reg << 1) | bit) & MQA_MASK_36;
        self.regs[index] = next;
        if next == MQA_MAGIC_36 {
            self.detected = true;
        }
        next == MQA_MAGIC_36
    }

    /// Takes in a word at four positions; true where the mark is complete at one
    /// of them.
    fn take_word(&mut self, word: u32, positions: [u32; 4]) -> (r: bool)
        requires
            !old(self).found(),
            positions@[0] < 32,
            positions@[1] < 32,
            positions@[2] < 32,
            positions@[3] < 32,
        ensures
            ({
                let before = old(self).registers();
                let next = seq![
                    shifted(before[0], bit_of(word, positions@[0])),
                    shifted(before[1], bit_of(word, positions@[1])),
                    shifted(before[2], bit_of(word, positions@[2])),
                    shifted(before[3], bit_of(word, positions@[3])),
                ];
                &&& r == final(self).found()
                &&& r == (next[0] == MQA_MAGIC_36 || next[1] == MQA_MAGIC_36 || next[2]
                    == MQA_MAGIC_36 || next[3] == MQA_MAGIC_36)
                &&& !r ==> final(self).registers() == next
            }),
    {
        if self.take_bit(0, word, positions[0]) {
            return true;
        }
        if self.take_bit(1, word, positions[1]) {
            return true;
        }
        if self.take_bit(2, word, positions[2]) {
            return true;
        }
        if self.take_bit(3, word, positions[3]) {
            return true;
        }
        proof {
            let before = old(self).registers();
            assert(self.registers() =~= seq![
                shifted(before[0], bit_of(word, positions@[0])),
                shifted(before[1], bit_of(word, positions@[1])),
                shifted(before[2], bit_of(word, positions@[2])),
                shifted(before[3], bit_of(word, positions@[3])),
            ]);
        }
        false
    }

    /// Scans words.
    fn scan(&mut self, words: &Vec<u32>, positions: [u32; 4]) -> (r: bool)
        requires
            positions@[0] < 32,
            positions@[1] < 32,
            positions@[2] < 32,
            positions@[3] < 32,
        ensures
            r == final(self).found(),
            final(self).scanned(*old(self), words@, positions@),
    {
        if self.detected {
            return true;
        }
        let n: usize = words.len();
        let mut i: usize = 0;
        let ghost regs = self.registers();
        assert(regs =~= seq![regs[0], regs[1], regs[2], regs[3]]);
        while i < n
            invariant
                i <= n,
                n == words@.len(),
                regs == old(self).registers(),
                !old(self).found(),
                !self.found(),
                positions@[0] < 32,
                positions@[1] < 32,
                positions@[2] < 32,
                positions@[3] < 32,
                !any_marked(regs, words@, positions@, i as int),
                self.registers() == seq![
                    register(regs[0], words@, positions@[0], i as int),
                    register(regs[1], words@, positions@[1], i as int),
                    register(regs[2], words@, positions@[2], i as int),
                    register(regs[3], words@, positions@[3], i as int),
                ],
            decreases n - i,
        {
            let word: u32 = words[i];
            let hit: bool = self.take_word(word, positions);
            proof {
                lemma_marked_step(regs[0], words@, positions@[0], i as int);
                lemma_marked_step(regs[1], words@, positions@[1], i as int);
                lemma_marked_step(regs[2], words@, positions@[2], i as int);
                lemma_marked_step(regs[3], words@, positions@[3], i as int);
                if hit {
                    lemma_marked_stays(regs[0], words@, positions@[0], i + 1, n as int);
                    lemma_marked_stays(regs[1], words@, positions@[1], i + 1, n as int);
                    lemma_marked_stays(regs[2], words@, positions@[2], i + 1, n as int);
                    lemma_marked_stays(regs[3], words@, positions@[3], i + 1, n as int);
                }
            }
            if hit {
                return true;
            }
            i += 1;
        }
        false
    }

    /// Scans interleaved stereo samples of 16 bits. Once MQA was found it stays
    /// found.
    pub fn feed_interleaved_s16(&mut self, samples: &[i16]) -> (r: bool)
        ensures
            r == final(self).found(),
            final(self).scanned(*old(self), words16(samples@), positions_low()),
    {
        let pairs: usize = samples.len() / 2;
        let mut words: Vec<u32> = Vec::new();
        let mut i: usize = 0;
        while i < pairs
            invariant
                i <= pairs,
                pairs == samples.len() / 2,
                words@ == words16(samples@).take(i as int),
            decreases pairs - i,
        {
            let left: u32 = samples[i * 2] as u16 as u32;
            let right: u32 = samples[i * 2 + 1] as u16 as u32;
            words.push(left ^ right);
            assert(words@ =~= words16(samples@).take(i + 1));
            i += 1;
        }
        assert(words@ =~= words16(samples@));
        let positions: [u32; 4] = [0, 1, 2, 3];
        assert(positions@ =~= positions_low());
        self.scan(&words, positions)
    }

    /// Scans interleaved stereo samples of 24 bits, in the lower part of 32.
    pub fn feed_interleaved_s24(&mut self, samples: &[i32]) -> (r: bool)
        ensures
            r == final(self).found(),
            final(self).scanned(*old(self), words32(samples@), positions_low()),
    {
        let words: Vec<u32> = stereo_words(samples);
        let positions: [u32; 4] = [0, 1, 2, 3];
        assert(positions@ =~= positions_low());
        self.scan(&words, positions)
    }

    /// Scans interleaved stereo samples of 32 bits.
    pub fn feed_interleaved_s32(&mut self, samples: &[i32]) -> (r: bool)
        ensures
            r == final(self).found(),
            final(self).scanned(*old(self), words32(samples@), positions_wide()),
    {
        let words: Vec<u32> = stereo_words(samples);
        let positions: [u32; 4] = [0, 1, 2, 8];
        assert(positions@ =~= positions_wide());
        self.scan(&words, positions)
    }
}

/// The words of the stereo pairs of 32-bit samples.
fn stereo_words(samples: &[i32]) -> (words: Vec<u32>)
    ensures
        words@ == words32(samples@),
{
    let pairs: usize = samples.len() / 2;
    let mut words: Vec<u32> = Vec::new();
    let mut i: usize = 0;
    while i < pairs
        invariant
            i <= pairs,
            pairs == samples.len() / 2,
            words@ == words32(samples@).take(i as int),
        decreases pairs - i,
    {
        let left: u32 = samples[i * 2] as u32;
        let right: u32 = samples[i * 2 + 1] as u32;
        words.push(left ^ right);
        assert(words@ =~= words32(samples@).take(i + 1));
        i += 1;
    }
    assert(words@ =~= words32(samples@));
    words
}

proof fn lemma_marked_step(reg: u64, words: Seq<u32>, position: u32, n: int)
    requires
        0 <= n,
        !marked(reg, words, position, n),
    ensures
        marked(reg, words, position, n + 1) == (register(reg, words, position, n + 1)
            == MQA_MAGIC_36),
{
    if register(reg, words, position, n + 1) == MQA_MAGIC_36 {
        assert(marked(reg, words, position, n + 1));
    }
}

proof fn lemma_marked_stays(reg: u64, words: Seq<u32>, position: u32, i: int, n: int)
    requires
        i <= n,
    ensures
        marked(reg, words, position, i) ==> marked(reg, words, position, n),
{
}

/// Samples may come in pieces: the registers after a stream are those after its
/// second piece, started from those after its first; and the mark shows up in
/// the stream where it shows up in one of the pieces.
pub proof fn law_mqa_scan_joins(reg: u64, a: Seq<u32>, b: Seq<u32>, position: u32)
    ensures
        ({
            let mid = register(reg, a, position, a.len() as int);
            let n = (a + b).len() as int;
            &&& register(reg, a + b, position, n) == register(mid, b, position, b.len() as int)
            &&& marked(reg, a + b, position, n) == (marked(reg, a, position, a.len() as int)
                || marked(mid, b, position, b.len() as int))
        }),
{
    let mid = register(reg, a, position, a.len() as int);
    let n = (a + b).len() as int;
    assert forall|k: int| 0 <= k <= a.len() implies #[trigger] register(reg, a + b, position, k)
        == register(reg, a, position, k) by {
        lemma_register_of_prefix(reg, a, b, position, k);
    }
    assert forall|k: int| 0 <= k <= b.len() implies register(
        reg,
        a + b,
        position,
        a.len() + k,
    ) == #[trigger] register(mid, b, position, k) by {
        lemma_register_joins(reg, a, b, position, k);
    }
    if marked(reg, a + b, position, n) {
        let k = choose|k: int|
            0 < k <= n && #[trigger] register(reg, a + b, position, k) == MQA_MAGIC_36;
        if k <= a.len() {
            assert(register(reg, a, position, k) == MQA_MAGIC_36);
        } else {
            assert(register(mid, b, position, k - a.len()) == MQA_MAGIC_36);
        }
    }
    if marked(reg, a, position, a.len() as int) {
        let k = choose|k: int|
            0 < k <= a.len() && #[trigger] register(reg, a, position, k) == MQA_MAGIC_36;
        assert(register(reg, a + b, position, k) == MQA_MAGIC_36);
    }
    if marked(mid, b, position, b.len() as int) {
        let k = choose|k: int|
            0 < k <= b.len() && #[trigger] register(mid, b, position, k) == MQA_MAGIC_36;
        assert(register(reg, a + b, position, a.len() + k) == MQA_MAGIC_36);
    }
}

proof fn lemma_register_of_prefix(reg: u64, a: Seq<u32>, b: Seq<u32>, position: u32, n: int)
    requires
        0 <= n <= a.len(),
    ensures
        register(reg, a + b, position, n) == register(reg, a, position, n),
    decreases n,
{
    if n > 0 {
        lemma_register_of_prefix(reg, a, b, position, n - 1);
    }
}

proof fn lemma_register_joins(reg: u64, a: Seq<u32>, b: Seq<u32>, position: u32, n: int)
    requires
        0 <= n <= b.len(),
    ensures
        register(reg, a + b, position, a.len() + n) == register(
            register(reg, a, position, a.len() as int),
            b,
            position,
            n,
        ),
    decreases n,
{
    if n == 0 {
        lemma_register_of_prefix(reg, a, b, position, a.len() as int);
    } else {
        lemma_register_joins(reg, a, b, position, n - 1);
    }
}

/// A register takes one bit of each word in at its low end and holds the last
/// thirty-six.
pub proof fn law_a_register_holds_the_last_bits(reg: u64, words: Seq<u32>, position: u32, n: int)
    requires
        0 < n <= words.len(),
        reg < 0x10_0000_0000,
        position < 32,
    ensures
        ({
            let before = register(reg, words, position, n - 1);
            let after = register(reg, words, position, n);
            &&& register(reg, words, position, 0) == reg
            &&& after < 68_719_476_736
            &&& after % 2 == bit_of(words[n - 1], position)
            &&& after as int / 2 == before as int % 34_359_738_368
        }),
{
    lemma_register_is_narrow(reg, words, position, n - 1);
    let word = words[n - 1];
    let bit = bit_of(word, position);
    assert((word >> position) & 1u32 <= 1) by (bit_vector);
}

proof fn lemma_register_is_narrow(reg: u64, words: Seq<u32>, position: u32, n: int)
    requires
        0 <= n <= words.len(),
        reg < 0x10_0000_0000,
    ensures
        register(reg, words, position, n) < 0x10_0000_0000,
    decreases n,
{
    if n > 0 {
        lemma_register_is_narrow(reg, words, position, n - 1);
    }
}

/// The mark is found once a register holds its thirty-six bits, and not before.
pub proof fn law_the_mark_is_thirty_six_bits(reg: u64, words: Seq<u32>, position: u32, n: int)
    requires
        0 <= n,
    ensures
        marked(reg, words, position, n) <==> exists|k: int|
            0 < k <= n && #[trigger] register(reg, words, position, k) == 51_007_556_744,
        !marked(reg, words, position, 0),
{
}

/// The bits looked at are those in which the two channels differ, place by place: the
/// four lowest of a sample, or the three lowest and the ninth.
pub proof fn law_bits_are_where_the_channels_differ(
    narrow: Seq<i16>,
    wide: Seq<i32>,
    i: int,
    position: u32,
)
    requires
        0 <= i,
        2 * i + 1 < narrow.len(),
        2 * i + 1 < wide.len(),
        position < 16,
    ensures
        words16(narrow).len() == narrow.len() / 2,
        words32(wide).len() == wide.len() / 2,
        bit_of(words16(narrow)[i], position) == 1 <==> ((narrow[2 * i] as u16) >> position) & 1u16
            != ((narrow[2 * i + 1] as u16) >> position) & 1u16,
        bit_of(words32(wide)[i], position) == 1 <==> ((wide[2 * i] as u32) >> position) & 1u32 != ((
        wide[2 * i + 1] as u32) >> position) & 1u32,
        positions_low() == seq![0u32, 1u32, 2u32, 3u32],
        positions_wide() == seq![0u32, 1u32, 2u32, 8u32],
{
    let a = narrow[2 * i] as u16;
    let b = narrow[2 * i + 1] as u16;
    assert(((((a as u32) ^ (b as u32)) >> position) & 1u32 == 1u32) <==> ((a >> position) & 1u16
        != (b >> position) & 1u16)) by (bit_vector)
        requires
            position < 16,
    ;
    let c = wide[2 * i] as u32;
    let d = wide[2 * i + 1] as u32;
    assert((((c ^ d) >> position) & 1u32 == 1u32) <==> ((c >> position) & 1u32 != (d >> position)
        & 1u32)) by (bit_vector);
}

/// A scan finds the mark where any of the four registers meets it, and what was found
/// stays found. Otherwise each register has taken in its bit of every word.
pub proof fn law_a_scan_looks_at_four_places(
    before: MqaDetector,
    after: MqaDetector,
    words: Seq<u32>,
    positions: Seq<u32>,
    place: int,
)
    requires
        positions.len() == 4,
        before.registers().len() == 4,
        after.scanned(before, words, positions),
        0 <= place < 4,
    ensures
        before.found() ==> after.found(),
        marked(before.registers()[place], words, positions[place], words.len() as int)
            ==> after.found(),
        !before.found() && (forall|p: int|
            0 <= p < 4 ==> !marked(
                #[trigger] before.registers()[p],
                words,
                positions[p],
                words.len() as int,
            )) ==> !after.found(),
        !after.found() ==> after.registers()[place] == register(
            before.registers()[place],
            words,
            positions[place],
            words.len() as int,
        ),
{
    let regs = before.registers();
    assert(place == 0 || place == 1 || place == 2 || place == 3);
    if forall|p: int|
        0 <= p < 4 ==> !marked(#[trigger] regs[p], words, positions[p], words.len() as int) {
        assert(!marked(regs[0], words, positions[0], words.len() as int));
        assert(!marked(regs[1], words, positions[1], words.len() as int));
        assert(!marked(regs[2], words, positions[2], words.len() as int));
        assert(!marked(regs[3], words, positions[3], words.len() as int));
    }
}

} // verus!
