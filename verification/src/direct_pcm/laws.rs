//! What decoded frames, fades and decoder sessions come to, told by what goes in
//! and what comes out.

use vstd::prelude::*;

use super::decoder::{clamp_i64, has_codec, is_http, next_stage, OpenStage};
use super::fade::{fade_window, stored_scaled, DirectPcmFadeState, FadeAction, FadeRamp};
use super::frame::{
    accepted, repack_kind, yields, DecodedFrame, DecodedSampleFormat, RepackKind,
};
use super::ring::{PcmRingView, DIRECT_RING_DEPTH};
use super::{same_transport, DirectPcmFormat, DirectPcmMemoryPath, DirectPcmSampleFormat};

verus! {

/// A frame that is accepted keeps its rate and its samples. Up to two channels stay
/// as they are, more become two. Samples of 16 bits stay so, all others take 32. The
/// bits that carry sound are those told, where they fit. Only packed integers in up
/// to two channels go out from where they lie.
pub proof fn law_accepted_frames_keep_what_they_are(frame: DecodedFrame, hint: u8)
    requires
        accepted(frame, hint) is Ok,
    ensures
        ({
            let a = accepted(frame, hint)->Ok_0;
            let f = a.format;
            let narrow = frame.sample_format == DecodedSampleFormat::S16 || frame.sample_format
                == DecodedSampleFormat::S16Planar;
            let packed = frame.sample_format == DecodedSampleFormat::S16 || frame.sample_format
                == DecodedSampleFormat::S32;
            &&& frame.sample_rate > 0 && f.sample_rate == frame.sample_rate
            &&& frame.channels >= 1
            &&& frame.channels <= 2 ==> f.channels == frame.channels
            &&& frame.channels > 2 ==> f.channels == 2
            &&& narrow ==> f.storage_bits == 16 && f.sample_format
                == DirectPcmSampleFormat::Signed16
            &&& !narrow ==> f.storage_bits == 32 && f.sample_format
                == DirectPcmSampleFormat::Signed32
            &&& 1 <= hint <= f.storage_bits ==> f.valid_bits == hint
            &&& !(1 <= hint <= f.storage_bits) ==> f.valid_bits == f.storage_bits
            &&& f.memory_path == DirectPcmMemoryPath::ZeroCopyPacked <==> packed && frame.channels
                <= 2
            &&& frame.samples > 0 && a.samples_per_channel == frame.samples
            &&& 8 * a.payload_len == frame.samples * f.channels * f.storage_bits
        }),
{
    let f = accepted(frame, hint)->Ok_0.format;
    let n = frame.samples * f.channels;
    assert(n * 16 == 8 * (n * 2) && n * 32 == 8 * (n * 4)) by (nonlinear_arith);
}

/// A frame of a known format that holds samples, with buffers long enough for any
/// format, is accepted. One without format, rate, channels or samples is not.
pub proof fn law_playable_frames_are_accepted(frame: DecodedFrame, hint: u8)
    requires
        !(frame.sample_format is Other),
        frame.sample_rate > 0,
        frame.channels > 0,
        frame.samples > 0,
        frame.has_data,
        frame.has_planes,
        frame.line_size >= 8 * frame.samples,
    ensures
        8 * frame.samples <= usize::MAX ==> accepted(frame, hint) is Ok,
        forall|other: DecodedFrame|
            other.sample_format is Other || other.sample_rate <= 0 || other.channels <= 0
                || other.samples <= 0 ==> (#[trigger] accepted(other, hint)) is Err,
{
    let s = frame.samples as int;
    assert(s * 1 * 2 <= 8 * s && s * 1 * 4 <= 8 * s && s * 2 * 2 <= 8 * s && s * 2 * 4 <= 8 * s);
}

/// More than two channels are mixed down; of up to two, floating-point samples are
/// turned into integers and integers are interleaved. What comes out has the width
/// that it is stored in.
pub proof fn law_repacking_suits_the_frame(frame: DecodedFrame, stored: DirectPcmSampleFormat)
    requires
        repack_kind(frame, stored) is Ok,
    ensures
        ({
            let kind = repack_kind(frame, stored)->Ok_0;
            let many = frame.channels > 2;
            &&& yields(kind) == stored
            &&& kind == RepackKind::DownmixFloatPlanar <==> many && frame.sample_format
                == DecodedSampleFormat::FloatPlanar
            &&& kind == RepackKind::DownmixFloat <==> many && frame.sample_format
                == DecodedSampleFormat::Float
            &&& kind == RepackKind::DownmixS16Planar <==> many && frame.sample_format
                == DecodedSampleFormat::S16Planar
            &&& kind == RepackKind::DownmixS16 <==> many && frame.sample_format
                == DecodedSampleFormat::S16
            &&& kind == RepackKind::DownmixS32Planar <==> many && frame.sample_format
                == DecodedSampleFormat::S32Planar
            &&& kind == RepackKind::DownmixS32 <==> many && frame.sample_format
                == DecodedSampleFormat::S32
            &&& kind == RepackKind::ConvertFloatPlanar <==> !many && frame.sample_format
                == DecodedSampleFormat::FloatPlanar
            &&& kind == RepackKind::ConvertFloat <==> !many && frame.sample_format
                == DecodedSampleFormat::Float
            &&& kind == RepackKind::InterleaveS16 || kind == RepackKind::DownmixS16 || kind
                == RepackKind::DownmixS16Planar <==> stored == DirectPcmSampleFormat::Signed16
        }),
{
}

/// Opening goes through seven stages in a fixed order. Where a stage fails, the
/// codec is freed exactly where it had been allocated by then.
pub proof fn law_opening_goes_through_its_stages(stage: OpenStage)
    ensures
        ({
            let two = next_stage(next_stage(OpenStage::ReadStreamInfo));
            let four = next_stage(next_stage(two));
            let six = next_stage(next_stage(four));
            &&& next_stage(OpenStage::ReadStreamInfo) == OpenStage::FindAudioStream
            &&& two == OpenStage::CheckParameters
            &&& next_stage(two) == OpenStage::AllocateCodec
            &&& four == OpenStage::CopyParameters
            &&& next_stage(four) == OpenStage::OpenCodec
            &&& six == OpenStage::AllocatePacket
            &&& next_stage(six) == OpenStage::Opened
        }),
        has_codec(stage) <==> stage == next_stage(OpenStage::AllocateCodec) || stage == next_stage(
            next_stage(OpenStage::AllocateCodec),
        ) || stage == next_stage(next_stage(next_stage(OpenStage::AllocateCodec))),
{
}

/// Time stamps in range are as they are, and others are brought to its ends.
pub proof fn law_time_stamps_stay_in_range(n: int)
    ensures
        -0x8000_0000_0000_0000 <= n <= 0x7fff_ffff_ffff_ffff ==> clamp_i64(n) == n,
        n > 0x7fff_ffff_ffff_ffff ==> clamp_i64(n) == 0x7fff_ffff_ffff_ffff,
        n < -0x8000_0000_0000_0000 ==> clamp_i64(n) == -0x8000_0000_0000_0000,
{
}

/// Sources of the two schemes are fetched over the network, and no others.
pub proof fn law_network_sources_are_told_by_their_scheme(rest: Seq<char>, local: Seq<char>)
    requires
        local.len() > 0,
        local[0] != 'h',
    ensures
        is_http("http://"@ + rest),
        is_http("https://"@ + rest),
        !is_http(local),
{
    reveal_strlit("http://");
    reveal_strlit("https://");
    let a = "http://"@;
    let b = "https://"@;
    assert((a + rest).subrange(0, a.len() as int) =~= a);
    assert((b + rest).subrange(0, b.len() as int) =~= b);
    if is_http(local) {
        assert(local[0] == local.subrange(0, 7)[0] || local[0] == local.subrange(0, 8)[0]);
    }
}

/// A fade lasts 20 milliseconds, in whole samples and at least one, or as long as
/// its block; it starts at full gain and ends at none, and leaves the bits below
/// the sound alone.
pub proof fn law_a_fade_lasts_twenty_milliseconds(
    fade: DirectPcmFadeState,
    sample_bits: u8,
    valid_bits: u8,
    sample_rate: u32,
    len: usize,
)
    requires
        fade.wf(),
        !fade.active(),
        sample_bits == 16 || sample_bits == 32,
        0 < valid_bits <= sample_bits,
        len >= sample_bits as int / 8,
        20 * sample_rate <= usize::MAX,
    ensures
        fade.begun(sample_bits, valid_bits, sample_rate).action(len) matches FadeAction::Ramp(r)
            && {
            let window = fade_window(sample_rate);
            &&& r.sample_bits == sample_bits
            &&& 8 * len - sample_bits < r.total_samples * sample_bits <= 8 * len
            &&& sample_rate >= 50 ==> 1000 * window <= 20 * sample_rate < 1000 * (window + 1)
            &&& sample_rate < 50 ==> window == 1
            &&& r.window <= window && r.window <= r.total_samples
            &&& r.window == window || r.window == r.total_samples
            &&& r.start_micro == 1_000_000
            &&& r.end_micro == 0
            &&& r.shift == sample_bits - valid_bits
        },
{
    let bytes = sample_bits as int / 8;
    let total = len as int / bytes;
    vstd::arithmetic::div_mod::lemma_fundamental_div_mod(len as int, bytes);
    assert(total >= 1) by (nonlinear_arith)
        requires
            total == len as int / bytes,
            len >= bytes,
            bytes > 0,
    ;
    assert(bytes * total * 8 == total * sample_bits) by (nonlinear_arith)
        requires
            sample_bits == 8 * bytes,
    ;
    vstd::arithmetic::div_mod::lemma_mod_bound(len as int, bytes);
}

/// A scaled sample is stored rounded down to what the sound's bits can hold.
pub proof fn law_scaled_samples_are_rounded_down(ramp: FadeRamp, scaled: i64)
    requires
        ramp.sample_bits == 16 && ramp.shift < 16 && -0x8000 <= scaled <= 0x7fff || ramp.sample_bits
            == 32 && ramp.shift < 32 && -0x8000_0000 <= scaled <= 0x7fff_ffff,
    ensures
        stored_scaled(ramp, scaled) <= scaled,
        scaled - stored_scaled(ramp, scaled) < (1i64 << ramp.shift),
        ramp.shift == 0 ==> stored_scaled(ramp, scaled) == scaled,
{
    let k = ramp.shift;
    if ramp.sample_bits == 16 {
        assert((((scaled >> k) << k) as i16) as i32 <= scaled && scaled - ((((scaled >> k) << k)
            as i16) as i32) < (1i64 << k) && (k == 0 ==> (((scaled >> k) << k) as i16) as i32
            == scaled)) by (bit_vector)
            requires
                k < 16,
                -0x8000 <= scaled <= 0x7fff,
        ;
    } else {
        assert(((scaled >> k) << k) as i32 <= scaled && scaled - (((scaled >> k) << k) as i32) < (
        1i64 << k) && (k == 0 ==> ((scaled >> k) << k) as i32 == scaled)) by (bit_vector)
            requires
                k < 32,
                -0x8000_0000 <= scaled <= 0x7fff_ffff,
        ;
    }
}

/// Two sources can share a connection exactly where rate, channels and width are
/// the same; how many bits carry sound is of no account.
pub proof fn law_transport_is_rate_channels_and_width(a: DirectPcmFormat, b: DirectPcmFormat)
    ensures
        a.sample_rate != b.sample_rate ==> !same_transport(a, b),
        a.channels != b.channels ==> !same_transport(a, b),
        a.storage_bits != b.storage_bits ==> !same_transport(a, b),
        same_transport(
            a,
            DirectPcmFormat {
                valid_bits: b.valid_bits,
                sample_format: b.sample_format,
                memory_path: b.memory_path,
                ..a
            },
        ),
{
}

/// A seek or a change of source covers the gap with silence for 80 milliseconds,
/// and the ring holds eight blocks.
pub proof fn law_pre_mute_lasts_its_time(ring: PcmRingView, begun_ms: u64, now_ms: u64)
    requires
        begun_ms <= u64::MAX - 80,
    ensures
        ring.pre_muted(begun_ms).muting(now_ms) <==> now_ms < begun_ms + 80,
        PcmRingView::fresh().slots.len() == 8,
        DIRECT_RING_DEPTH == 8,
{
}

/// Frames whose channels lie apart need their planes. Packed frames that are mixed down
/// or turned from fractions need their samples in one piece. A frame without what it
/// needs is refused.
pub proof fn law_frames_need_their_samples(frame: DecodedFrame, stored: DirectPcmSampleFormat)
    ensures
        frame.sample_format is S16Planar || frame.sample_format is S32Planar
            || frame.sample_format is FloatPlanar ==> (!frame.has_planes ==> repack_kind(
            frame,
            stored,
        ) is Err),
        frame.sample_format is Float || (frame.channels > 2 && (frame.sample_format is S16
            || frame.sample_format is S32)) ==> (!frame.has_data ==> repack_kind(frame, stored)
            is Err),
        frame.channels > 2 && frame.sample_format is Other ==> repack_kind(frame, stored) is Err,
        frame.channels > 2 && frame.sample_format is S16 && frame.has_data ==> repack_kind(
            frame,
            DirectPcmSampleFormat::Signed16,
        ) is Ok,
        frame.channels > 2 && frame.sample_format is Float && frame.has_data ==> repack_kind(
            frame,
            DirectPcmSampleFormat::Signed32,
        ) is Ok,
{
}

} // verus!
