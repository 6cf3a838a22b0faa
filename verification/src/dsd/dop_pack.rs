//! DSD over PCM: two DSD bytes of a channel ride in one 24-bit PCM sample under
//! a marker byte that changes every 16 frames, without a break between buffers.

use vstd::arithmetic::div_mod::lemma_fundamental_div_mod_converse;
use vstd::prelude::*;

verus! {

/// Frames after which the markers repeat.
pub const MARKER_PERIOD: usize = 32;

/// The marker of a frame, by its number since the start of the stream.
pub open spec fn marker_of_frame(frame: int) -> u8 {
    if (frame / 16) % 2 == 0 {
        0x05
    } else {
        0xfa
    }
}

/// The sample that carries two DSD bytes under a marker: the 24 bits stand at
/// the top of the 32-bit container.
pub open spec fn dop_sample(marker: u8, b0: u8, b1: u8) -> int {
    let word = marker * 0x100_0000 + b0 * 0x1_0000 + b1 * 0x100;
    if word < 0x8000_0000 {
        word
    } else {
        word - 0x1_0000_0000
    }
}

/// Frames that fit both the input and the output.
pub open spec fn packed_frames(bytes: int, channels: int, room: int) -> int {
    if bytes / (2 * channels) <= room / channels {
        bytes / (2 * channels)
    } else {
        room / channels
    }
}

/// Packs interleaved DSD bytes into DoP samples.
#[derive(Debug, Clone, Copy)]
pub struct DopStreamPacker {
    phase: usize,
}

impl DopStreamPacker {
    /// Number of the next frame, modulo the marker period.
    pub closed spec fn frame(&self) -> int {
        self.phase as int
    }

    #[verifier::type_invariant]
    spec fn phase_in_period(self) -> bool {
        self.phase < MARKER_PERIOD
    }

    /// A packer at the start of a stream.
    pub fn new() -> (r: Self)
        ensures
            r.frame() == 0,
    {
        DopStreamPacker { phase: 0 }
    }

    /// Starts the markers anew, as at the start of a track.
    pub fn reset(&mut self)
        ensures
            final(self).frame() == 0,
    {
        self.phase = 0;
    }

    /// The marker of the next frame.
    pub fn marker(&self) -> (r: u8)
        ensures
            r == marker_of_frame(self.frame()),
    {
        if (self.phase / 16) % 2 == 0 {
            0x05
        } else {
            0xfa
        }
    }

    /// Packs as many whole frames as `dsd` holds and `out` takes, and returns
    /// their number. Bytes short of a frame are left alone.
    pub fn pack_interleaved(&mut self, dsd: &[u8], channels: usize, out: &mut [i32]) -> (frames:
        usize)
        requires
            0 < channels <= usize::MAX / 2,
        ensures
            frames == packed_frames(dsd@.len() as int, channels as int, old(out)@.len() as int),
            final(self).frame() == (old(self).frame() + frames) % 32,
            final(out)@.len() == old(out)@.len(),
            forall|n: int|
                0 <= n < frames * channels ==> #[trigger] final(out)@[n] == dop_sample(
                    marker_of_frame(old(self).frame() + n / (channels as int)),
                    dsd@[2 * n],
                    dsd@[2 * n + 1],
                ),
            forall|n: int|
                frames * channels <= n < old(out)@.len() ==> #[trigger] final(out)@[n] == old(
                    out,
                )@[n],
    {
        proof {
            use_type_invariant(&*self);
        }
        let by_input: usize = dsd.len() / (channels * 2);
        let by_room: usize = out.len() / channels;
        let frames: usize = if by_input <= by_room {
            by_input
        } else {
            by_room
        };
        let ghost start = self.frame();
        let ghost ch = channels as int;
        let mut frame: usize = 0;
        let mut base: usize = 0;
        proof {
            lemma_room(dsd@.len() as int, ch, out@.len() as int, frames as int);
        }
        while frame < frames
            invariant
                frame <= frames,
                ch == channels,
                0 < channels <= usize::MAX / 2,
                base == frame * ch,
                0 <= start < 32,
                self.frame() == (start + frame) % 32,
                frames * ch <= out@.len(),
                2 * (frames * ch) <= dsd.len(),
                out@.len() == old(out)@.len(),
                forall|n: int|
                    0 <= n < base ==> #[trigger] out@[n] == dop_sample(
                        marker_of_frame(start + n / ch),
                        dsd@[2 * n],
                        dsd@[2 * n + 1],
                    ),
                forall|n: int| base <= n < old(out)@.len() ==> #[trigger] out@[n] == old(out)@[n],
            decreases frames - frame,
        {
            proof {
                use_type_invariant(&*self);
                assert(marker_of_frame(self.frame()) == marker_of_frame(start + frame)) by {
                    assert(((start + frame) % 32) / 16 == ((start + frame) / 16) % 2);
                }
                assert(base + ch <= frames * ch) by (nonlinear_arith)
                    requires
                        base == frame * ch,
                        frame + 1 <= frames,
                        ch > 0,
                ;
            }
            let marker: u32 = self.marker() as u32;
            let mut c: usize = 0;
            while c < channels
                invariant
                    c <= channels,
                    ch == channels,
                    0 < channels,
                    base == frame * ch,
                    base + ch <= frames * ch,
                    marker == marker_of_frame(start + frame),
                    frames * ch <= out@.len(),
                    2 * (frames * ch) <= dsd.len(),
                    out@.len() == old(out)@.len(),
                    forall|n: int|
                        0 <= n < base + c ==> #[trigger] out@[n] == dop_sample(
                            marker_of_frame(start + n / ch),
                            dsd@[2 * n],
                            dsd@[2 * n + 1],
                        ),
                    forall|n: int|
                        base + c <= n < old(out)@.len() ==> #[trigger] out@[n] == old(out)@[n],
                decreases channels - c,
            {
                let n: usize = base + c;
                proof {
                    lemma_fundamental_div_mod_converse(n as int, ch, frame as int, c as int);
                }
                let b0: u32 = dsd[2 * n] as u32;
                let b1: u32 = dsd[2 * n + 1] as u32;
                let word: u32 = marker * 0x100_0000 + b0 * 0x1_0000 + b1 * 0x100;
                let sample: i32 = if word < 0x8000_0000 {
                    word as i32
                } else {
                    (word as i64 - 0x1_0000_0000) as i32
                };
                out[n] = sample;
                c += 1;
            }
            self.phase = (self.phase + 1) % MARKER_PERIOD;
            base += channels;
            frame += 1;
            assert(base == frame * ch) by (nonlinear_arith)
                requires
                    base == (frame - 1) * ch + ch,
            ;
        }
        frames
    }
}

impl Default for DopStreamPacker {
    fn default() -> (r: Self)
        ensures
            r.frame() == 0,
    {
        DopStreamPacker::new()
    }
}

proof fn lemma_room(bytes: int, ch: int, room: int, frames: int)
    requires
        0 <= bytes,
        0 < ch,
        0 <= room,
        0 <= frames <= bytes / (2 * ch),
        frames <= room / ch,
    ensures
        frames * ch <= room,
        2 * (frames * ch) <= bytes,
{
    assert(frames * ch <= room) by (nonlinear_arith)
        requires
            frames <= room / ch,
            0 < ch,
            0 <= room,
            0 <= frames,
    ;
    assert(2 * (frames * ch) <= bytes) by (nonlinear_arith)
        requires
            frames <= bytes / (2 * ch),
            0 < ch,
            0 <= bytes,
            0 <= frames,
    ;
}

/// A carried byte pair can be read off the sample, and so can the marker: no
/// DSD data, silence among it, hides the marker.
pub proof fn law_sample_gives_back_marker_and_bytes(marker: u8, b0: u8, b1: u8)
    ensures
        dop_sample(marker, b0, b1) % 0x100 == 0,
        (dop_sample(marker, b0, b1) / 0x100) % 0x100 == b1,
        (dop_sample(marker, b0, b1) / 0x1_0000) % 0x100 == b0,
        (dop_sample(marker, b0, b1) / 0x100_0000) % 0x100 == marker,
{
    let s = dop_sample(marker, b0, b1);
    let top = if marker < 0x80 {
        marker as int
    } else {
        marker - 0x100
    };
    assert(s == top * 0x100_0000 + b0 * 0x1_0000 + b1 * 0x100);
    assert(s / 0x100 == top * 0x1_0000 + b0 * 0x100 + b1);
    assert(s / 0x1_0000 == top * 0x100 + b0);
    assert(s / 0x100_0000 == top);
}

/// The markers come in runs of 16 frames, 0x05 first, and repeat every 32.
pub proof fn law_markers_alternate(frame: int)
    requires
        0 <= frame,
    ensures
        frame % 32 < 16 ==> marker_of_frame(frame) == 0x05,
        frame % 32 >= 16 ==> marker_of_frame(frame) == 0xfa,
        marker_of_frame(frame + 16) != marker_of_frame(frame),
        marker_of_frame(frame % 32) == marker_of_frame(frame),
{
}

/// The samples that carry interleaved DSD bytes, the first of them in frame
/// `start`.
pub open spec fn dop_samples(dsd: Seq<u8>, channels: int, start: int) -> Seq<int> {
    Seq::new(
        (dsd.len() / 2) as nat,
        |n: int| dop_sample(marker_of_frame(start + n / channels), dsd[2 * n], dsd[2 * n + 1]),
    )
}

/// A stream may be packed in buffers of whole frames: the samples, markers
/// among them, are those of the stream packed at once.
pub proof fn law_packing_joins(a: Seq<u8>, b: Seq<u8>, channels: int, start: int, frames: int)
    requires
        0 < channels,
        0 <= start,
        0 <= frames,
        a.len() == 2 * (frames * channels),
    ensures
        dop_samples(a, channels, start) + dop_samples(b, channels, (start + frames) % 32)
            == dop_samples(a + b, channels, start),
{
    let whole = dop_samples(a + b, channels, start);
    let first = dop_samples(a, channels, start);
    let second = dop_samples(b, channels, (start + frames) % 32);
    let cut = frames * channels;
    assert(cut >= 0) by (nonlinear_arith)
        requires
            cut == frames * channels,
            0 <= frames,
            0 < channels,
    ;
    assert forall|n: int| 0 <= n < whole.len() implies (first + second)[n] == whole[n] by {
        if n >= cut {
            let m = n - cut;
            let q = m / channels;
            vstd::arithmetic::div_mod::lemma_fundamental_div_mod(m, channels);
            assert(n == (frames + q) * channels + m % channels) by (nonlinear_arith)
                requires
                    n == frames * channels + m,
                    m == channels * q + m % channels,
            ;
            lemma_fundamental_div_mod_converse(n, channels, frames + q, m % channels);
            assert(q >= 0) by (nonlinear_arith)
                requires
                    q == m / channels,
                    m >= 0,
                    channels > 0,
            ;
            lemma_marker_shifts(start + frames, q);
            assert(2 * n == a.len() + 2 * m);
            assert((a + b)[2 * n] == b[2 * m]);
            assert((a + b)[2 * n + 1] == b[2 * m + 1]);
        } else {
            assert((a + b)[2 * n] == a[2 * n]);
            assert((a + b)[2 * n + 1] == a[2 * n + 1]);
        }
    }
    assert(first + second =~= whole);
}

/// The marker a number of frames after another depends on the latter modulo the
/// period.
pub proof fn lemma_marker_shifts(frame: int, q: int)
    requires
        0 <= frame,
        0 <= q,
    ensures
        marker_of_frame(frame % 32 + q) == marker_of_frame(frame + q),
{
    let k = frame / 32;
    assert(frame == 32 * k + frame % 32);
    assert((frame + q) / 16 == 2 * k + (frame % 32 + q) / 16);
}

} // verus!
