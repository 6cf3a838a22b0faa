//! The fade that ends a stream: a short ramp to silence, then silence until the
//! next source.

use vstd::prelude::*;

verus! {

/// Full gain, in millionths.
pub const UNITY_GAIN_MICRO: u32 = 1_000_000;

/// Milliseconds of the ramp.
pub const FADE_WINDOW_MS: usize = 20;

/// How far a fade has come. While it neither ramps nor is silent, no sample is
/// touched.
#[derive(Debug, Clone, Copy, PartialEq, Eq, Structural)]
pub struct DirectPcmFadeState {
    /// Gain at the start of the ramp, in millionths.
    pub gain_start_micro: u32,
    /// Gain at the end of the ramp, in millionths.
    pub gain_end_micro: u32,
    /// The next block gets the ramp.
    pub ramping: bool,
    /// Every block from now on is silence.
    pub silent: bool,
    /// Silent blocks handed out.
    pub silence_blocks: u32,
    /// Bits of a stored sample; 0 where they are not known yet.
    pub sample_bits: u8,
    /// Bits of a sample that carry sound.
    pub valid_bits: u8,
    /// Samples of the ramp.
    pub window_samples: usize,
}

/// A ramp over a block: sample `i` of the first `window` is scaled by the gain
/// that lies `i / window` of the way between the two, the others by the second.
/// Scaled samples keep their lowest `shift` bits zero.
#[derive(Debug, Clone, Copy, PartialEq, Eq, Structural)]
pub struct FadeRamp {
    pub sample_bits: u8,
    pub total_samples: usize,
    pub window: usize,
    pub start_micro: u32,
    pub end_micro: u32,
    pub shift: u32,
}

/// What a fade does to a block.
#[derive(Debug, Clone, Copy, PartialEq, Eq, Structural)]
pub enum FadeAction {
    Keep,
    Silence,
    Ramp(FadeRamp),
}

/// Samples of the ramp at a sample rate.
pub open spec fn fade_window(sample_rate: u32) -> int {
    let wide = sample_rate * FADE_WINDOW_MS;
    let n = (if wide > usize::MAX {
        usize::MAX as int
    } else {
        wide
    }) / 1000;
    if n < 1 {
        1
    } else {
        n
    }
}

impl DirectPcmFadeState {
    /// Sound fits in the stored sample. A fade leads to silence, and without one
    /// the gain is full.
    pub open spec fn wf(self) -> bool {
        &&& self.valid_bits <= self.sample_bits
        &&& if self.active() {
            self.gain_end_micro == 0
        } else {
            self.gain_start_micro == UNITY_GAIN_MICRO && self.gain_end_micro == UNITY_GAIN_MICRO
        }
    }

    /// Whether a fade is under way or done.
    pub open spec fn active(self) -> bool {
        self.ramping || self.silent
    }

    /// No fade.
    pub fn new() -> (r: Self)
        ensures
            r == (DirectPcmFadeState {
                gain_start_micro: UNITY_GAIN_MICRO,
                gain_end_micro: UNITY_GAIN_MICRO,
                ramping: false,
                silent: false,
                silence_blocks: 0,
                sample_bits: 0,
                valid_bits: 0,
                window_samples: 0,
            }),
    {
        DirectPcmFadeState {
            gain_start_micro: UNITY_GAIN_MICRO,
            gain_end_micro: UNITY_GAIN_MICRO,
            ramping: false,
            silent: false,
            silence_blocks: 0,
            sample_bits: 0,
            valid_bits: 0,
            window_samples: 0,
        }
    }

    /// The fade once it was asked for. A ramp that no block has had yet starts
    /// where it was to start.
    pub open spec fn begun(self, sample_bits: u8, valid_bits: u8, sample_rate: u32) -> Self {
        if self.silent {
            self
        } else {
            DirectPcmFadeState {
                gain_start_micro: if self.ramping {
                    self.gain_start_micro
                } else {
                    self.gain_end_micro
                },
                gain_end_micro: 0,
                ramping: true,
                sample_bits,
                valid_bits,
                window_samples: fade_window(sample_rate) as usize,
                ..self
            }
        }
    }

    /// Asks for the fade: about 20 ms of ramp with the next block, then silence.
    pub fn begin_fade_out(&mut self, sample_bits: u8, valid_bits: u8, sample_rate: u32)
        requires
            valid_bits <= sample_bits,
            old(self).wf(),
        ensures
            *final(self) == old(self).begun(sample_bits, valid_bits, sample_rate),
            final(self).wf(),
    {
        if self.silent {
            return ;
        }
        self.sample_bits = sample_bits;
        self.valid_bits = valid_bits;
        let wide: usize = match (sample_rate as usize).checked_mul(FADE_WINDOW_MS) {
            Some(wide) => wide,
            None => usize::MAX,
        };
        let window: usize = wide / 1000;
        self.window_samples = if window < 1 {
            1
        } else {
            window
        };
        if !self.ramping {
            self.gain_start_micro = self.gain_end_micro;
        }
        self.gain_end_micro = 0;
        self.ramping = true;
    }

    /// Whether every block from now on is silence.
    pub fn silent(&self) -> (r: bool)
        ensures
            r == self.silent,
    {
        self.silent
    }

    /// The fade once another source or position has taken over.
    pub open spec fn cleared(self) -> Self {
        DirectPcmFadeState {
            gain_start_micro: UNITY_GAIN_MICRO,
            gain_end_micro: UNITY_GAIN_MICRO,
            ramping: false,
            silent: false,
            silence_blocks: 0,
            ..self
        }
    }

    /// Ends the fade, as before another source or position: what follows starts
    /// at full gain, with every bit as decoded.
    pub fn reset(&mut self)
        ensures
            *final(self) == old(self).cleared(),
            old(self).wf() ==> final(self).wf(),
    {
        self.gain_start_micro = UNITY_GAIN_MICRO;
        self.gain_end_micro = UNITY_GAIN_MICRO;
        self.ramping = false;
        self.silent = false;
        self.silence_blocks = 0;
    }

    /// Whether the fade is done and `min_blocks` of silence were handed out.
    pub fn drained(&self, min_blocks: u32) -> (r: bool)
        ensures
            r == (self.silent && self.silence_blocks >= min_blocks),
    {
        self.silent && self.silence_blocks >= min_blocks
    }

    /// What the fade does to a block of `len` bytes.
    pub open spec fn action(self, len: usize) -> FadeAction {
        let samples = len as int / (self.sample_bits as int / 8);
        if len == 0 {
            FadeAction::Keep
        } else if self.silent {
            FadeAction::Silence
        } else if !self.ramping || self.sample_bits != 16 && self.sample_bits != 32
            || self.valid_bits == 0 || self.window_samples == 0 || samples == 0 {
            FadeAction::Keep
        } else {
            FadeAction::Ramp(
                FadeRamp {
                    sample_bits: self.sample_bits,
                    total_samples: samples as usize,
                    window: if samples < self.window_samples {
                        samples as usize
                    } else {
                        self.window_samples
                    },
                    start_micro: self.gain_start_micro,
                    end_micro: self.gain_end_micro,
                    shift: (self.sample_bits - self.valid_bits) as u32,
                },
            )
        }
    }

    /// The fade once it has acted on a block.
    pub open spec fn advanced(self, action: FadeAction) -> Self {
        match action {
            FadeAction::Keep => self,
            FadeAction::Silence => DirectPcmFadeState {
                silence_blocks: ((self.silence_blocks + 1) % 0x1_0000_0000) as u32,
                ..self
            },
            FadeAction::Ramp(_) => DirectPcmFadeState {
                gain_start_micro: self.gain_end_micro,
                silent: self.silent || self.gain_end_micro == 0,
                ramping: false,
                ..self
            },
        }
    }

    /// Settles what happens to a block of `len` bytes, and moves the fade on: a
    /// ramp is given once, and silence follows it.
    pub fn step(&mut self, len: usize) -> (r: FadeAction)
        requires
            old(self).wf(),
        ensures
            r == old(self).action(len),
            *final(self) == old(self).advanced(r),
            final(self).wf(),
    {
        if len == 0 {
            return FadeAction::Keep;
        }
        if self.silent {
            self.silence_blocks = self.silence_blocks.wrapping_add(1);
            return FadeAction::Silence;
        }
        if !self.ramping {
            return FadeAction::Keep;
        }
        if (self.sample_bits != 16 && self.sample_bits != 32) || self.valid_bits == 0
            || self.window_samples == 0 {
            return FadeAction::Keep;
        }
        let bytes_per_sample: usize = (self.sample_bits / 8) as usize;
        let total_samples: usize = len / bytes_per_sample;
        if total_samples == 0 {
            return FadeAction::Keep;
        }
        let window: usize = if total_samples < self.window_samples {
            total_samples
        } else {
            self.window_samples
        };
        let ramp = FadeRamp {
            sample_bits: self.sample_bits,
            total_samples,
            window,
            start_micro: self.gain_start_micro,
            end_micro: self.gain_end_micro,
            shift: (self.sample_bits - self.valid_bits) as u32,
        };
        self.gain_start_micro = self.gain_end_micro;
        if self.gain_end_micro == 0 {
            self.silent = true;
        }
        self.ramping = false;
        FadeAction::Ramp(ramp)
    }
}

/// A scaled sample as it is stored: its lowest `shift` bits are cleared, and it
/// is cut to the width of a stored sample.
pub open spec fn stored_scaled(ramp: FadeRamp, scaled: i64) -> i32 {
    let aligned = (scaled >> ramp.shift) << ramp.shift;
    if ramp.sample_bits == 16 {
        (aligned as i16) as i32
    } else {
        aligned as i32
    }
}

/// The samples of a ramped block, from what scaling by the gains gave.
pub fn store_scaled(ramp: FadeRamp, scaled: &[i64]) -> (r: Vec<i32>)
    requires
        ramp.shift < 64,
    ensures
        r@.len() == scaled@.len(),
        forall|i: int| 0 <= i < r@.len() ==> #[trigger] r@[i] == stored_scaled(ramp, scaled@[i]),
{
    let mut out: Vec<i32> = Vec::with_capacity(scaled.len());
    let mut i: usize = 0;
    while i < scaled.len()
        invariant
            ramp.shift < 64,
            i <= scaled.len(),
            out@.len() == i,
            forall|k: int| 0 <= k < i ==> #[trigger] out@[k] == stored_scaled(ramp, scaled@[k]),
        decreases scaled.len() - i,
    {
        let aligned: i64 = (scaled[i] >> ramp.shift) << ramp.shift;
        let stored: i32 = if ramp.sample_bits == 16 {
            (aligned as i16) as i32
        } else {
            aligned as i32
        };
        out.push(stored);
        i += 1;
    }
    out
}

/// Whether the lowest `shift` bits of a stored sample are zero.
pub open spec fn padding_is_zero(sample: i32, shift: u32) -> bool {
    (sample >> shift) << shift == sample
}

/// Scaling leaves the bits below the sound zero, and a sample that the gain left
/// alone is stored as it was.
pub proof fn law_scaling_keeps_the_padding_zero(ramp: FadeRamp, scaled: i64, sample: i32)
    requires
        ramp.sample_bits == 32,
        ramp.shift < 32,
        padding_is_zero(sample, ramp.shift),
    ensures
        padding_is_zero(stored_scaled(ramp, scaled), ramp.shift),
        stored_scaled(ramp, sample as i64) == sample,
{
    let k = ramp.shift;
    assert(((((scaled >> k) << k) as i32) >> k) << k == ((scaled >> k) << k) as i32)
        by (bit_vector)
        requires
            k < 32,
    ;
    assert(((sample as i64 >> k) << k) as i32 == sample) by (bit_vector)
        requires
            k < 32,
            (sample >> k) << k == sample,
    ;
}

/// Without a fade no block is touched and nothing changes.
pub proof fn law_steady_state_keeps_every_bit(fade: DirectPcmFadeState, len: usize)
    requires
        !fade.active(),
    ensures
        fade.action(len) == FadeAction::Keep,
        fade.advanced(fade.action(len)) == fade,
{
}

/// A fade that was asked for ramps one block from full gain down to silence, and
/// every block after it is silent until the fade is reset. A fade after that does
/// the same again.
pub proof fn law_fade_ramps_once_and_stays_silent(
    fade: DirectPcmFadeState,
    sample_bits: u8,
    valid_bits: u8,
    sample_rate: u32,
    first: usize,
    later: usize,
)
    requires
        fade.wf(),
        !fade.active(),
        sample_bits == 16 || sample_bits == 32,
        0 < valid_bits <= sample_bits,
        first >= sample_bits as int / 8,
        later > 0,
    ensures
        ({
            let asked = fade.begun(sample_bits, valid_bits, sample_rate);
            let one = asked.advanced(asked.action(first));
            let two = one.advanced(one.action(later));
            let again = two.cleared().begun(sample_bits, valid_bits, sample_rate);
            &&& asked.action(first) is Ramp
            &&& asked.action(first)->Ramp_0.start_micro == UNITY_GAIN_MICRO
            &&& asked.action(first)->Ramp_0.end_micro == 0
            &&& one.action(later) == FadeAction::Silence
            &&& two.action(later) == FadeAction::Silence
            &&& two.silent && !two.ramping
            &&& two.begun(sample_bits, valid_bits, sample_rate) == two
            &&& two.cleared().wf()
            &&& two.cleared().action(later) == FadeAction::Keep
            &&& !again.silent
            &&& again.action(first) == asked.action(first)
            &&& asked.begun(sample_bits, valid_bits, sample_rate) == asked
        }),
{
    let bytes = sample_bits as int / 8;
    assert(first as int / bytes >= 1) by (nonlinear_arith)
        requires
            first >= bytes,
            bytes > 0,
    ;
}

} // verus!
