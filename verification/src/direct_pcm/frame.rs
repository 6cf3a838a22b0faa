//! Decoded frames: what they become on the wire, and the rearranging of planar
//! samples.

use vstd::arithmetic::div_mod::lemma_fundamental_div_mod_converse;
use vstd::prelude::*;

use super::{DirectPcmError, DirectPcmFormat, DirectPcmMemoryPath, DirectPcmSampleFormat};

verus! {

/// Sample formats of a decoder; `Other` holds the decoder's number for the rest.
#[derive(Debug, Clone, Copy, PartialEq, Eq, Structural)]
pub enum DecodedSampleFormat {
    S16,
    S32,
    S16Planar,
    S32Planar,
    Float,
    FloatPlanar,
    Other(i32),
}

/// What a decoder reports of a frame.
#[derive(Debug, Clone, Copy, PartialEq, Eq, Structural)]
pub struct DecodedFrame {
    pub sample_format: DecodedSampleFormat,
    pub sample_rate: i32,
    pub channels: i32,
    pub samples: i32,
    /// Bytes of the first line of samples.
    pub line_size: i32,
    /// Whether the first line is there.
    pub has_data: bool,
    /// Whether the table of planes is there.
    pub has_planes: bool,
}

/// A frame that can be handed on: its format on the wire and its length.
#[derive(Debug, Clone, Copy, PartialEq, Eq, Structural)]
pub struct AcceptedFrame {
    pub format: DirectPcmFormat,
    pub payload_len: usize,
    pub samples_per_channel: usize,
}

/// How the samples of a decoder's format are stored on the wire.
pub open spec fn stored_as(f: DecodedSampleFormat) -> DirectPcmSampleFormat {
    match f {
        DecodedSampleFormat::S16 | DecodedSampleFormat::S16Planar => DirectPcmSampleFormat::Signed16,
        _ => DirectPcmSampleFormat::Signed32,
    }
}

/// Whether samples of a decoder's format, one or two channels of them, are
/// handed on without rearranging.
pub open spec fn is_packed(f: DecodedSampleFormat) -> bool {
    f == DecodedSampleFormat::S16 || f == DecodedSampleFormat::S32
}

/// Bits of a stored sample.
pub open spec fn storage_bits(f: DirectPcmSampleFormat) -> u8 {
    match f {
        DirectPcmSampleFormat::Signed16 => 16,
        DirectPcmSampleFormat::Signed32 => 32,
    }
}

/// Channels on the wire: more than two are mixed down to two.
pub open spec fn wire_channels(source: int) -> int {
    if source > 2 {
        2
    } else {
        source
    }
}

/// The format of a frame on the wire.
pub open spec fn wire_format(frame: DecodedFrame, valid_bits_hint: u8) -> DirectPcmFormat {
    let stored = stored_as(frame.sample_format);
    DirectPcmFormat {
        sample_rate: frame.sample_rate as u32,
        channels: wire_channels(frame.channels as int) as u16,
        valid_bits: if 0 < valid_bits_hint <= storage_bits(stored) {
            valid_bits_hint
        } else {
            storage_bits(stored)
        },
        storage_bits: storage_bits(stored),
        sample_format: stored,
        memory_path: if is_packed(frame.sample_format) && frame.channels <= 2 {
            DirectPcmMemoryPath::ZeroCopyPacked
        } else {
            DirectPcmMemoryPath::BitPerfectRepack
        },
    }
}

/// Bytes of a frame on the wire.
pub open spec fn wire_len(frame: DecodedFrame) -> int {
    frame.samples * wire_channels(frame.channels as int) * (storage_bits(
        stored_as(frame.sample_format),
    ) as int / 8)
}

/// What a frame becomes on the wire, or why it is refused.
pub open spec fn accepted(frame: DecodedFrame, valid_bits_hint: u8) -> Result<
    AcceptedFrame,
    DirectPcmError,
> {
    let format = wire_format(frame, valid_bits_hint);
    let plane_len = frame.samples * (format.storage_bits as int / 8);
    if frame.sample_format is Other {
        Err(DirectPcmError::UnsupportedSampleFormat(frame.sample_format->0))
    } else if frame.sample_rate <= 0 {
        Err(DirectPcmError::SampleRate)
    } else if frame.channels <= 0 {
        Err(DirectPcmError::Channels)
    } else if frame.samples <= 0 {
        Err(DirectPcmError::NoSamples)
    } else if wire_len(frame) > usize::MAX {
        Err(DirectPcmError::PayloadOverflow)
    } else if format.memory_path == DirectPcmMemoryPath::ZeroCopyPacked && !frame.has_data {
        Err(DirectPcmError::DataMissing)
    } else if format.memory_path == DirectPcmMemoryPath::ZeroCopyPacked && frame.line_size < 0 {
        Err(DirectPcmError::LineSize)
    } else if format.memory_path == DirectPcmMemoryPath::ZeroCopyPacked && frame.line_size
        < wire_len(frame) {
        Err(DirectPcmError::FrameBufferTooSmall)
    } else if format.memory_path == DirectPcmMemoryPath::BitPerfectRepack && frame.has_planes
        && frame.channels <= 2 && frame.line_size < 0 {
        Err(DirectPcmError::LineSize)
    } else if format.memory_path == DirectPcmMemoryPath::BitPerfectRepack && frame.has_planes
        && frame.channels <= 2 && frame.line_size < plane_len {
        Err(DirectPcmError::FrameBufferTooSmall)
    } else {
        Ok(
            AcceptedFrame {
                format,
                payload_len: wire_len(frame) as usize,
                samples_per_channel: frame.samples as usize,
            },
        )
    }
}

/// Settles what a decoded frame becomes on the wire. A format outside the table
/// is refused: nothing is converted on the quiet.
pub fn accept_decoded_frame(frame: &DecodedFrame, valid_bits_hint: u8) -> (r: Result<
    AcceptedFrame,
    DirectPcmError,
>)
    ensures
        r == accepted(*frame, valid_bits_hint),
{
    let (sample_format, packed) = match frame.sample_format {
        DecodedSampleFormat::S16 => (DirectPcmSampleFormat::Signed16, true),
        DecodedSampleFormat::S32 => (DirectPcmSampleFormat::Signed32, true),
        DecodedSampleFormat::S16Planar => (DirectPcmSampleFormat::Signed16, false),
        DecodedSampleFormat::S32Planar => (DirectPcmSampleFormat::Signed32, false),
        DecodedSampleFormat::Float => (DirectPcmSampleFormat::Signed32, false),
        DecodedSampleFormat::FloatPlanar => (DirectPcmSampleFormat::Signed32, false),
        DecodedSampleFormat::Other(number) => {
            return Err(DirectPcmError::UnsupportedSampleFormat(number));
        },
    };
    if frame.sample_rate <= 0 {
        return Err(DirectPcmError::SampleRate);
    }
    if frame.channels <= 0 {
        return Err(DirectPcmError::Channels);
    }
    if frame.samples <= 0 {
        return Err(DirectPcmError::NoSamples);
    }
    let multichannel: bool = frame.channels > 2;
    let channels: u16 = if multichannel {
        2
    } else {
        frame.channels as u16
    };
    let memory_path = if packed && !multichannel {
        DirectPcmMemoryPath::ZeroCopyPacked
    } else {
        DirectPcmMemoryPath::BitPerfectRepack
    };
    let storage_bits: u8 = match sample_format {
        DirectPcmSampleFormat::Signed16 => 16,
        DirectPcmSampleFormat::Signed32 => 32,
    };
    let valid_bits: u8 = if valid_bits_hint > 0 && valid_bits_hint <= storage_bits {
        valid_bits_hint
    } else {
        storage_bits
    };
    let bytes: u64 = (storage_bits / 8) as u64;
    let samples: u64 = frame.samples as u64;
    proof {
        let ch = channels as int;
        let b = bytes as int;
        let s = samples as int;
        assert(s * ch <= 2 * s) by (nonlinear_arith)
            requires
                0 <= s,
                0 <= ch <= 2,
        ;
        assert(s * ch * b <= 8 * s && 0 <= s * ch && s * b <= s * ch * b) by (nonlinear_arith)
            requires
                0 <= s,
                1 <= ch <= 2,
                0 <= b <= 4,
        ;
    }
    let payload: u64 = samples * (channels as u64) * bytes;
    if payload > usize::MAX as u64 {
        return Err(DirectPcmError::PayloadOverflow);
    }
    if memory_path == DirectPcmMemoryPath::ZeroCopyPacked {
        if !frame.has_data {
            return Err(DirectPcmError::DataMissing);
        }
        if frame.line_size < 0 {
            return Err(DirectPcmError::LineSize);
        }
        if (frame.line_size as u64) < payload {
            return Err(DirectPcmError::FrameBufferTooSmall);
        }
    } else if frame.has_planes && !multichannel {
        if frame.line_size < 0 {
            return Err(DirectPcmError::LineSize);
        }
        if (frame.line_size as u64) < samples * bytes {
            return Err(DirectPcmError::FrameBufferTooSmall);
        }
    }
    Ok(
        AcceptedFrame {
            format: DirectPcmFormat {
                sample_rate: frame.sample_rate as u32,
                channels,
                valid_bits,
                storage_bits,
                sample_format,
                memory_path,
            },
            payload_len: payload as usize,
            samples_per_channel: samples as usize,
        },
    )
}

/// Bytes that are left of a frame of `total` samples when the first `offset`
/// are cut off.
pub fn trim_start_samples(total: usize, offset: usize, format: DirectPcmFormat) -> (r: Result<
    usize,
    DirectPcmError,
>)
    requires
        format.storage_bits == storage_bits(format.sample_format),
    ensures
        ({
            let len = (total - offset) * format.channels * (format.storage_bits as int / 8);
            match r {
                Ok(n) => offset < total && n == len,
                Err(e) => if offset >= total {
                    e == DirectPcmError::SeekOffset
                } else {
                    len > usize::MAX && e == DirectPcmError::PayloadOverflow
                },
            }
        }),
{
    if offset >= total {
        return Err(DirectPcmError::SeekOffset);
    }
    let remaining: usize = total - offset;
    let bytes: usize = (format.storage_bits / 8) as usize;
    let ghost ch = format.channels as int;
    let samples: usize = match remaining.checked_mul(format.channels as usize) {
        Some(samples) => samples,
        None => {
            proof {
                assert(remaining * ch * bytes >= remaining * ch) by (nonlinear_arith)
                    requires
                        remaining * ch >= 0,
                        bytes >= 1,
                ;
            }
            return Err(DirectPcmError::PayloadOverflow);
        },
    };
    match samples.checked_mul(bytes) {
        Some(len) => Ok(len),
        None => Err(DirectPcmError::PayloadOverflow),
    }
}

// ---------------------------------------------------------------------------
// Rearranging
// ---------------------------------------------------------------------------

/// Which rearranging a frame needs.
#[derive(Debug, Clone, Copy, PartialEq, Eq, Structural)]
pub enum RepackKind {
    /// Mix planes of floating-point samples down to two channels.
    DownmixFloatPlanar,
    /// Mix packed floating-point samples down to two channels.
    DownmixFloat,
    DownmixS16Planar,
    DownmixS16,
    DownmixS32Planar,
    DownmixS32,
    /// Turn planes of floating-point samples into integers.
    ConvertFloatPlanar,
    /// Turn packed floating-point samples into integers.
    ConvertFloat,
    InterleaveS16,
    InterleaveS32,
}

/// A rearranging to be done: its kind, the samples of each channel it covers and
/// the samples it yields.
#[derive(Debug, Clone, Copy, PartialEq, Eq, Structural)]
pub struct RepackPlan {
    pub kind: RepackKind,
    pub samples: usize,
    pub output_samples: usize,
}

/// The sample format that a rearranging yields.
pub open spec fn yields(kind: RepackKind) -> DirectPcmSampleFormat {
    match kind {
        RepackKind::DownmixS16Planar | RepackKind::DownmixS16 | RepackKind::InterleaveS16 => {
            DirectPcmSampleFormat::Signed16
        },
        _ => DirectPcmSampleFormat::Signed32,
    }
}

/// Which rearranging a frame needs to be stored as `stored`, or why it cannot
/// be rearranged.
pub open spec fn repack_kind(frame: DecodedFrame, stored: DirectPcmSampleFormat) -> Result<
    RepackKind,
    DirectPcmError,
> {
    let kind = if frame.channels > 2 {
        match frame.sample_format {
            DecodedSampleFormat::FloatPlanar => Ok(RepackKind::DownmixFloatPlanar),
            DecodedSampleFormat::Float => Ok(RepackKind::DownmixFloat),
            DecodedSampleFormat::S16Planar => Ok(RepackKind::DownmixS16Planar),
            DecodedSampleFormat::S16 => Ok(RepackKind::DownmixS16),
            DecodedSampleFormat::S32Planar => Ok(RepackKind::DownmixS32Planar),
            DecodedSampleFormat::S32 => Ok(RepackKind::DownmixS32),
            DecodedSampleFormat::Other(number) => Err(
                DirectPcmError::UnsupportedSampleFormat(number),
            ),
        }
    } else if !frame.has_planes {
        Err(DirectPcmError::PlaneMissing)
    } else {
        match frame.sample_format {
            DecodedSampleFormat::FloatPlanar => Ok(RepackKind::ConvertFloatPlanar),
            DecodedSampleFormat::Float => Ok(RepackKind::ConvertFloat),
            _ => match stored {
                DirectPcmSampleFormat::Signed16 => Ok(RepackKind::InterleaveS16),
                DirectPcmSampleFormat::Signed32 => Ok(RepackKind::InterleaveS32),
            },
        }
    };
    match kind {
        Ok(k) => if yields(k) != stored {
            Err(DirectPcmError::RepackBufferMismatch)
        } else if needs_planes(k) && !frame.has_planes {
            Err(DirectPcmError::PlaneMissing)
        } else if needs_data(k) && !frame.has_data {
            Err(DirectPcmError::DataMissing)
        } else {
            Ok(k)
        },
        Err(e) => Err(e),
    }
}

/// Whether a rearranging reads the table of planes.
pub open spec fn needs_planes(kind: RepackKind) -> bool {
    match kind {
        RepackKind::DownmixFloatPlanar
        | RepackKind::DownmixS16Planar
        | RepackKind::DownmixS32Planar
        | RepackKind::ConvertFloatPlanar
        | RepackKind::InterleaveS16
        | RepackKind::InterleaveS32 => true,
        _ => false,
    }
}

/// Whether a rearranging reads packed samples.
pub open spec fn needs_data(kind: RepackKind) -> bool {
    !needs_planes(kind)
}

/// A buffer for rearranged samples.
pub enum DirectPcmRepackBuffer {
    Empty,
    Signed16(Vec<i16>),
    Signed32(Vec<i32>),
}

impl DirectPcmRepackBuffer {
    /// Samples that the buffer holds.
    pub open spec fn len_spec(&self) -> int {
        match self {
            DirectPcmRepackBuffer::Empty => 0,
            DirectPcmRepackBuffer::Signed16(v) => v@.len() as int,
            DirectPcmRepackBuffer::Signed32(v) => v@.len() as int,
        }
    }

    /// Whether the buffer has samples of a format, or none yet.
    pub open spec fn suits(&self, format: DirectPcmSampleFormat) -> bool {
        match self {
            DirectPcmRepackBuffer::Empty => true,
            DirectPcmRepackBuffer::Signed16(_) => format == DirectPcmSampleFormat::Signed16,
            DirectPcmRepackBuffer::Signed32(_) => format == DirectPcmSampleFormat::Signed32,
        }
    }

    /// Makes room for `samples` samples of a format. A buffer that is large
    /// enough stays; the format never changes in mid-stream.
    pub fn preallocate_repack(&mut self, sample_format: DirectPcmSampleFormat, samples: usize) -> (r:
        Result<(), DirectPcmError>)
        ensures
            if samples == 0 {
                r is Ok && *final(self) == *old(self)
            } else if !old(self).suits(sample_format) {
                r == Err::<(), DirectPcmError>(DirectPcmError::RepackFormatChanged) && *final(self)
                    == *old(self)
            } else if *old(self) is Empty || old(self).len_spec() < samples {
                &&& r is Ok
                &&& final(self).len_spec() == samples
                &&& final(self).suits(sample_format)
                &&& !(*final(self) is Empty)
            } else {
                r is Ok && *final(self) == *old(self)
            },
    {
        if samples == 0 {
            return Ok(());
        }
        let needs_replacement: bool = match (&*self, sample_format) {
            (DirectPcmRepackBuffer::Empty, _) => true,
            (DirectPcmRepackBuffer::Signed16(buffer), DirectPcmSampleFormat::Signed16) => {
                buffer.len() < samples
            },
            (DirectPcmRepackBuffer::Signed32(buffer), DirectPcmSampleFormat::Signed32) => {
                buffer.len() < samples
            },
            _ => {
                return Err(DirectPcmError::RepackFormatChanged);
            },
        };
        if needs_replacement {
            match sample_format {
                DirectPcmSampleFormat::Signed16 => {
                    let v: Vec<i16> = vec![0i16; samples];
                    *self = DirectPcmRepackBuffer::Signed16(v);
                },
                DirectPcmSampleFormat::Signed32 => {
                    let v: Vec<i32> = vec![0i32; samples];
                    *self = DirectPcmRepackBuffer::Signed32(v);
                },
            }
        }
        Ok(())
    }
}

/// Samples that the buffers of a stream must take: those of the longest frame
/// that the decoder announces or has given, of every channel.
pub fn repack_samples(frame_samples_hint: i32, samples_per_channel: usize, channels: u16) -> (r:
    Result<usize, DirectPcmError>)
    ensures
        ({
            let longest = if frame_samples_hint > samples_per_channel {
                frame_samples_hint as int
            } else {
                samples_per_channel as int
            };
            match r {
                Ok(n) => n == longest * channels,
                Err(e) => longest * channels > usize::MAX && e == DirectPcmError::PayloadOverflow,
            }
        }),
{
    let hint: usize = if frame_samples_hint > 0 {
        frame_samples_hint as usize
    } else {
        0
    };
    let longest: usize = if hint > samples_per_channel {
        hint
    } else {
        samples_per_channel
    };
    match longest.checked_mul(channels as usize) {
        Some(n) => Ok(n),
        None => Err(DirectPcmError::PayloadOverflow),
    }
}

/// Plans the rearranging of a frame from a sample on.
pub fn repack_planar(
    frame: &DecodedFrame,
    sample_format: DirectPcmSampleFormat,
    start_sample: usize,
) -> (r: Result<RepackPlan, DirectPcmError>)
    requires
        frame.samples >= 0,
        frame.channels >= 0,
    ensures
        ({
            let samples = frame.samples - start_sample;
            let output = samples * wire_channels(frame.channels as int);
            match r {
                Ok(plan) => {
                    &&& start_sample < frame.samples
                    &&& repack_kind(*frame, sample_format) == Ok::<RepackKind, DirectPcmError>(
                        plan.kind,
                    )
                    &&& plan.samples == samples
                    &&& plan.output_samples == output
                },
                Err(e) => if start_sample >= frame.samples {
                    e == DirectPcmError::SeekOffset
                } else if output > usize::MAX {
                    e == DirectPcmError::PayloadOverflow
                } else {
                    repack_kind(*frame, sample_format) == Err::<RepackKind, DirectPcmError>(e)
                },
            }
        }),
{
    let total: usize = frame.samples as usize;
    if start_sample >= total {
        return Err(DirectPcmError::SeekOffset);
    }
    let samples: usize = total - start_sample;
    let source_channels: usize = frame.channels as usize;
    let output_channels: usize = if source_channels > 2 {
        2
    } else {
        source_channels
    };
    let output_samples: usize = match samples.checked_mul(output_channels) {
        Some(n) => n,
        None => {
            return Err(DirectPcmError::PayloadOverflow);
        },
    };
    let kind = if source_channels > 2 {
        match frame.sample_format {
            DecodedSampleFormat::FloatPlanar => RepackKind::DownmixFloatPlanar,
            DecodedSampleFormat::Float => RepackKind::DownmixFloat,
            DecodedSampleFormat::S16Planar => RepackKind::DownmixS16Planar,
            DecodedSampleFormat::S16 => RepackKind::DownmixS16,
            DecodedSampleFormat::S32Planar => RepackKind::DownmixS32Planar,
            DecodedSampleFormat::S32 => RepackKind::DownmixS32,
            DecodedSampleFormat::Other(number) => {
                return Err(DirectPcmError::UnsupportedSampleFormat(number));
            },
        }
    } else if !frame.has_planes {
        return Err(DirectPcmError::PlaneMissing);
    } else {
        match frame.sample_format {
            DecodedSampleFormat::FloatPlanar => RepackKind::ConvertFloatPlanar,
            DecodedSampleFormat::Float => RepackKind::ConvertFloat,
            _ => match sample_format {
                DirectPcmSampleFormat::Signed16 => RepackKind::InterleaveS16,
                DirectPcmSampleFormat::Signed32 => RepackKind::InterleaveS32,
            },
        }
    };
    let (yielded, planes): (DirectPcmSampleFormat, bool) = match kind {
        RepackKind::DownmixFloatPlanar => (DirectPcmSampleFormat::Signed32, true),
        RepackKind::DownmixFloat => (DirectPcmSampleFormat::Signed32, false),
        RepackKind::DownmixS16Planar => (DirectPcmSampleFormat::Signed16, true),
        RepackKind::DownmixS16 => (DirectPcmSampleFormat::Signed16, false),
        RepackKind::DownmixS32Planar => (DirectPcmSampleFormat::Signed32, true),
        RepackKind::DownmixS32 => (DirectPcmSampleFormat::Signed32, false),
        RepackKind::ConvertFloatPlanar => (DirectPcmSampleFormat::Signed32, true),
        RepackKind::ConvertFloat => (DirectPcmSampleFormat::Signed32, false),
        RepackKind::InterleaveS16 => (DirectPcmSampleFormat::Signed16, true),
        RepackKind::InterleaveS32 => (DirectPcmSampleFormat::Signed32, true),
    };
    if yielded != sample_format {
        return Err(DirectPcmError::RepackBufferMismatch);
    }
    if planes && !frame.has_planes {
        return Err(DirectPcmError::PlaneMissing);
    }
    if !planes && !frame.has_data {
        return Err(DirectPcmError::DataMissing);
    }
    Ok(RepackPlan { kind, samples, output_samples })
}

/// A frame that was accepted for rearranging can be planned: an accepted format
/// never meets a buffer of the other sample format.
pub proof fn law_accepted_frames_have_a_plan(frame: DecodedFrame, valid_bits_hint: u8)
    requires
        accepted(frame, valid_bits_hint) is Ok,
        accepted(frame, valid_bits_hint)->Ok_0.format.memory_path
            == DirectPcmMemoryPath::BitPerfectRepack,
        frame.has_planes,
        frame.has_data,
    ensures
        repack_kind(frame, accepted(frame, valid_bits_hint)->Ok_0.format.sample_format) is Ok,
{
}

/// Interleaves planes: sample `i` of channel `c` comes to stand at
/// `i * channels + c`, every bit of it kept.
pub fn interleave_planar<T: Copy>(
    planes: &[Vec<T>],
    start_sample: usize,
    samples: usize,
    output: &mut Vec<T>,
) -> (r: Result<(), DirectPcmError>)
    requires
        forall|c: int|
            0 <= c < planes@.len() ==> start_sample + samples <= (#[trigger] planes@[c])@.len(),
    ensures
        final(output)@.len() == old(output)@.len(),
        ({
            let ch = planes@.len() as int;
            if samples * ch > usize::MAX {
                r == Err::<(), DirectPcmError>(DirectPcmError::PayloadOverflow) && final(output)@
                    == old(output)@
            } else if old(output)@.len() < samples * ch {
                r == Err::<(), DirectPcmError>(DirectPcmError::RepackBufferTooSmall) && final(
                    output)@ == old(output)@
            } else {
                &&& r is Ok
                &&& forall|n: int|
                    0 <= n < samples * ch ==> #[trigger] final(output)@[n]
                        == planes@[n % ch]@[start_sample + n / ch]
                &&& forall|n: int|
                    samples * ch <= n < old(output)@.len() ==> #[trigger] final(output)@[n] == old(
                        output)@[n]
            }
        }),
{
    let channels: usize = planes.len();
    let ghost ch = channels as int;
    let total: usize = match samples.checked_mul(channels) {
        Some(total) => total,
        None => {
            return Err(DirectPcmError::PayloadOverflow);
        },
    };
    if output.len() < total {
        return Err(DirectPcmError::RepackBufferTooSmall);
    }
    let mut index: usize = 0;
    let mut base: usize = 0;
    while index < samples && channels > 0
        invariant
            ch == channels,
            channels == planes@.len(),
            index <= samples,
            base == index * ch,
            total == samples * ch,
            total <= output@.len(),
            output@.len() == old(output)@.len(),
            forall|c: int|
                0 <= c < planes@.len() ==> start_sample + samples <= (#[trigger] planes@[c])@.len(),
            forall|n: int|
                0 <= n < base ==> #[trigger] output@[n] == planes@[n % ch]@[start_sample + n / ch],
            forall|n: int| base <= n < output@.len() ==> #[trigger] output@[n] == old(output)@[n],
        decreases samples - index,
    {
        proof {
            assert(base + ch <= total) by (nonlinear_arith)
                requires
                    base == index * ch,
                    index + 1 <= samples,
                    total == samples * ch,
                    ch > 0,
            ;
        }
        let mut channel: usize = 0;
        while channel < channels
            invariant
                ch == channels,
                channels == planes@.len(),
                index < samples,
                channel <= channels,
                base == index * ch,
                base + ch <= total,
                total <= output@.len(),
                output@.len() == old(output)@.len(),
                forall|c: int|
                    0 <= c < planes@.len() ==> start_sample + samples <= (
                    #[trigger] planes@[c])@.len(),
                forall|n: int|
                    0 <= n < base + channel ==> #[trigger] output@[n]
                        == planes@[n % ch]@[start_sample + n / ch],
                forall|n: int|
                    base + channel <= n < output@.len() ==> #[trigger] output@[n] == old(
                        output)@[n],
            decreases channels - channel,
        {
            proof {
                lemma_fundamental_div_mod_converse(
                    base + channel,
                    ch,
                    index as int,
                    channel as int,
                );
                assert(start_sample + samples <= planes@[channel as int]@.len());
                assert(planes@[channel as int].len() == planes@[channel as int]@.len());
            }
            let plane: &Vec<T> = &planes[channel];
            let sample: T = plane[start_sample + index];
            output.set(base + channel, sample);
            channel += 1;
        }
        proof {
            assert((index + 1) * ch == index * ch + ch) by (nonlinear_arith);
        }
        base += channels;
        index += 1;
    }
    proof {
        if channels == 0 {
            assert(samples * ch == 0) by (nonlinear_arith)
                requires
                    ch == 0,
            ;
        }
    }
    Ok(())
}

// ---------------------------------------------------------------------------
// Mixing down
// ---------------------------------------------------------------------------

/// Share of a source channel in an output channel.
#[derive(Debug, Clone, Copy, PartialEq, Eq, Structural)]
pub enum DownmixShare {
    Zero,
    Full,
    /// One over the square root of two.
    InvSqrt2,
    Half,
}

/// Output of the channels from the fourth to the eighth where the general rule
/// applies: `L`, `R`, or 0 for neither.
pub open spec fn extra_target(channels: int, channel: int) -> u8 {
    if channels == 4 {
        if channel == 3 {
            0x52
        } else {
            0
        }
    } else if channels == 5 {
        if channel == 3 {
            0x4c
        } else if channel == 4 {
            0x52
        } else {
            0
        }
    } else if channel == 4 || channel == 6 {
        0x4c
    } else if channel == 5 || channel == 7 {
        0x52
    } else {
        0
    }
}

/// Outputs of the fourth to the eighth channel under the general rule. The
/// order is front left, front right, center, low frequency, then pairs of left
/// and right; four channels are two such pairs, and five have no low frequency.
pub fn downmix_extra_targets(channels: usize) -> (r: [u8; 5])
    ensures
        forall|i: int| 0 <= i < 5 ==> #[trigger] r@[i] == extra_target(channels as int, i + 3),
{
    if channels == 4 {
        [0x52, 0, 0, 0, 0]
    } else if channels == 5 {
        [0x4c, 0x52, 0, 0, 0]
    } else {
        [0, 0x4c, 0x52, 0x4c, 0x52]
    }
}

/// Shares of source channel `channel`, of `channels` of them, in the left and
/// the right output.
pub open spec fn downmix_shares(channels: int, channel: int) -> (DownmixShare, DownmixShare) {
    let none = DownmixShare::Zero;
    if channel == 0 {
        (DownmixShare::Full, none)
    } else if channel == 1 {
        (none, DownmixShare::Full)
    } else if channel == 2 {
        if channels == 4 {
            (DownmixShare::Half, none)
        } else {
            (DownmixShare::InvSqrt2, DownmixShare::InvSqrt2)
        }
    } else if channel >= 8 || channel >= channels {
        (none, none)
    } else if channels == 6 && channel == 4 {
        (DownmixShare::InvSqrt2, none)
    } else if channels == 6 && channel == 5 {
        (none, DownmixShare::InvSqrt2)
    } else if channels == 7 && channel == 4 {
        (DownmixShare::Half, DownmixShare::Half)
    } else if channels == 7 && channel == 5 || channels == 8 && channel == 6 {
        (DownmixShare::InvSqrt2, none)
    } else if channels == 7 && channel == 6 || channels == 8 && channel == 7 {
        (none, DownmixShare::InvSqrt2)
    } else if extra_target(channels, channel) == 0x4c {
        (DownmixShare::Half, none)
    } else if extra_target(channels, channel) == 0x52 {
        (none, DownmixShare::Half)
    } else {
        (none, none)
    }
}

/// The share of a source channel in the left and the right output of a mix from
/// integer samples.
pub fn downmix_share(channels: usize, channel: usize) -> (r: (DownmixShare, DownmixShare))
    requires
        3 <= channels,
        channel < channels,
    ensures
        r == downmix_shares(channels as int, channel as int),
{
    let none = DownmixShare::Zero;
    if channel == 0 {
        return (DownmixShare::Full, none);
    }
    if channel == 1 {
        return (none, DownmixShare::Full);
    }
    if channel == 2 {
        if channels == 4 {
            return (DownmixShare::Half, none);
        }
        return (DownmixShare::InvSqrt2, DownmixShare::InvSqrt2);
    }
    if channel >= 8 {
        return (none, none);
    }
    if channels == 6 {
        if channel == 4 {
            return (DownmixShare::InvSqrt2, none);
        }
        if channel == 5 {
            return (none, DownmixShare::InvSqrt2);
        }
    }
    if channels == 7 {
        if channel == 4 {
            return (DownmixShare::Half, DownmixShare::Half);
        }
        if channel == 5 {
            return (DownmixShare::InvSqrt2, none);
        }
        if channel == 6 {
            return (none, DownmixShare::InvSqrt2);
        }
    }
    if channels == 8 {
        if channel == 6 {
            return (DownmixShare::InvSqrt2, none);
        }
        if channel == 7 {
            return (none, DownmixShare::InvSqrt2);
        }
    }
    let targets: [u8; 5] = downmix_extra_targets(channels);
    let target: u8 = targets[channel - 3];
    assert(target == targets@[channel - 3]);
    if target == 0x4c {
        (DownmixShare::Half, none)
    } else if target == 0x52 {
        (none, DownmixShare::Half)
    } else {
        (none, none)
    }
}

/// Shares of a source channel under the general rule alone, which planes of
/// floating-point samples follow whatever their number.
pub open spec fn general_shares(channels: int, channel: int) -> (DownmixShare, DownmixShare) {
    let none = DownmixShare::Zero;
    if channel < 3 {
        downmix_shares(channels, channel)
    } else if channel >= 8 {
        (none, none)
    } else if extra_target(channels, channel) == 0x4c {
        (DownmixShare::Half, none)
    } else if extra_target(channels, channel) == 0x52 {
        (none, DownmixShare::Half)
    } else {
        (none, none)
    }
}

/// The share of a source channel in the left and the right output of a mix from
/// planes of floating-point samples.
pub fn downmix_float_planar_share(channels: usize, channel: usize) -> (r: (
    DownmixShare,
    DownmixShare,
))
    requires
        3 <= channels,
        channel < channels,
    ensures
        r == general_shares(channels as int, channel as int),
{
    if channel < 3 {
        return downmix_share(channels, channel);
    }
    if channel >= 8 {
        return (DownmixShare::Zero, DownmixShare::Zero);
    }
    let targets: [u8; 5] = downmix_extra_targets(channels);
    let target: u8 = targets[channel - 3];
    assert(target == targets@[channel - 3]);
    if target == 0x4c {
        (DownmixShare::Half, DownmixShare::Zero)
    } else if target == 0x52 {
        (DownmixShare::Zero, DownmixShare::Half)
    } else {
        (DownmixShare::Zero, DownmixShare::Zero)
    }
}

/// Surround channels alternate between the left and the right output, a left one
/// first: behind the front pair of four channels, the center of five, and low
/// frequency of more.
pub proof fn law_extra_channels_alternate(channels: int, channel: int)
    requires
        4 <= channels,
        3 <= channel < 8,
    ensures
        ({
            let first = if channels == 4 {
                2
            } else if channels == 5 {
                3
            } else {
                4int
            };
            let past = if channels < 6 {
                channels
            } else {
                8
            };
            extra_target(channels, channel) == if channel < first || channel >= past {
                0u8
            } else if (channel - first) % 2 == 0 {
                0x4cu8
            } else {
                0x52u8
            }
        }),
{
}

/// Where each channel of planes of floating-point samples goes. The front pair
/// goes to its side, the center to both. Of the others, low frequency goes
/// nowhere, and each left surround channel goes to the left output alone, each
/// right one to the right.
pub proof fn law_float_surround_goes_to_its_side(channels: int, channel: int)
    requires
        3 <= channels,
        0 <= channel < channels,
    ensures
        ({
            let shares = general_shares(channels, channel);
            let left = (DownmixShare::Half, DownmixShare::Zero);
            let right = (DownmixShare::Zero, DownmixShare::Half);
            let nowhere = (DownmixShare::Zero, DownmixShare::Zero);
            &&& channel == 0 ==> shares == (DownmixShare::Full, DownmixShare::Zero)
            &&& channel == 1 ==> shares == (DownmixShare::Zero, DownmixShare::Full)
            &&& channel == 2 && channels != 4 ==> shares == (
                DownmixShare::InvSqrt2,
                DownmixShare::InvSqrt2,
            )
            &&& channels == 4 && channel == 2 ==> shares == left
            &&& channels == 4 && channel == 3 ==> shares == right
            &&& channels == 5 && channel == 3 ==> shares == left
            &&& channels == 5 && channel == 4 ==> shares == right
            &&& channels >= 6 && channel == 3 ==> shares == nowhere
            &&& channels >= 6 && (channel == 4 || channel == 6) ==> shares == left
            &&& channels >= 6 && (channel == 5 || channel == 7) ==> shares == right
            &&& channel >= 8 ==> shares == nowhere
        }),
{
}

/// Where each channel of integer samples goes: as those of floating-point samples,
/// but a pair of surround channels of six, seven or eight channels is mixed in
/// with more weight, and of seven the fifth is a rear center.
pub proof fn law_integer_surround_goes_to_its_side(channels: int, channel: int)
    requires
        3 <= channels,
        0 <= channel < channels,
    ensures
        ({
            let shares = downmix_shares(channels, channel);
            let strong_left = (DownmixShare::InvSqrt2, DownmixShare::Zero);
            let strong_right = (DownmixShare::Zero, DownmixShare::InvSqrt2);
            let left = (DownmixShare::Half, DownmixShare::Zero);
            let right = (DownmixShare::Zero, DownmixShare::Half);
            let nowhere = (DownmixShare::Zero, DownmixShare::Zero);
            &&& channel == 0 ==> shares == (DownmixShare::Full, DownmixShare::Zero)
            &&& channel == 1 ==> shares == (DownmixShare::Zero, DownmixShare::Full)
            &&& channel == 2 && channels != 4 ==> shares == (
                DownmixShare::InvSqrt2,
                DownmixShare::InvSqrt2,
            )
            &&& channels == 4 && channel == 2 ==> shares == left
            &&& channels == 4 && channel == 3 ==> shares == right
            &&& channels == 5 && channel == 3 ==> shares == left
            &&& channels == 5 && channel == 4 ==> shares == right
            &&& channels >= 6 && channel == 3 ==> shares == nowhere
            &&& channels == 6 && channel == 4 ==> shares == strong_left
            &&& channels == 6 && channel == 5 ==> shares == strong_right
            &&& channels == 7 && channel == 4 ==> shares == (
                DownmixShare::Half,
                DownmixShare::Half,
            )
            &&& channels == 7 && channel == 5 ==> shares == strong_left
            &&& channels == 7 && channel == 6 ==> shares == strong_right
            &&& channels >= 8 && channel == 4 ==> shares == left
            &&& channels >= 8 && channel == 5 ==> shares == right
            &&& channels == 8 && channel == 6 ==> shares == strong_left
            &&& channels == 8 && channel == 7 ==> shares == strong_right
            &&& channels > 8 && channel == 6 ==> shares == left
            &&& channels > 8 && channel == 7 ==> shares == right
            &&& channel >= 8 ==> shares == nowhere
        }),
{
}

/// Left and right mirror each other: each front channel goes to its side alone,
/// and no surround channel but the rear center is in both.
pub proof fn law_downmix_keeps_sides_apart(channels: int, channel: int)
    requires
        3 <= channels,
        3 <= channel < channels,
        !(channels == 7 && channel == 4),
    ensures
        downmix_shares(channels, 0) == (DownmixShare::Full, DownmixShare::Zero),
        downmix_shares(channels, 1) == (DownmixShare::Zero, DownmixShare::Full),
        downmix_shares(channels, channel).0 == DownmixShare::Zero || downmix_shares(
            channels,
            channel,
        ).1 == DownmixShare::Zero,
{
}

} // verus!
