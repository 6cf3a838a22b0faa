//! The decisions of a decoder session: opening and releasing, the exchange of
//! packets and frames, accurate seeking, and custom input.

use vstd::prelude::*;

use super::DirectPcmError;
use crate::text::{begins_with, starts_with, to_chars};

verus! {

/// Whether a source is fetched over HTTP.
pub open spec fn is_http(source: Seq<char>) -> bool {
    begins_with(source, "http://"@) || begins_with(source, "https://"@)
}

/// Tests whether a source is fetched over HTTP.
pub fn is_http_source(source: &str) -> (r: bool)
    ensures
        r == is_http(source@),
{
    let chars: Vec<char> = to_chars(source);
    starts_with(chars.as_slice(), "http://") || starts_with(chars.as_slice(), "https://")
}

/// A decoder call has succeeded where its code is not negative.
pub fn ffmpeg_result(code: i32) -> (r: Result<(), DirectPcmError>)
    ensures
        code >= 0 ==> r == Ok::<(), DirectPcmError>(()),
        code < 0 ==> r == Err::<(), DirectPcmError>(DirectPcmError::Decoder(code)),
{
    if code >= 0 {
        Ok(())
    } else {
        Err(DirectPcmError::Decoder(code))
    }
}

// ---------------------------------------------------------------------------
// Opening
// ---------------------------------------------------------------------------

/// What is done next to open a decoder on an input.
#[derive(Debug, Clone, Copy, PartialEq, Eq, Structural)]
pub enum OpenStage {
    ReadStreamInfo,
    FindAudioStream,
    CheckParameters,
    AllocateCodec,
    CopyParameters,
    OpenCodec,
    AllocatePacket,
    Opened,
}

/// What a stage of opening leads to.
#[derive(Debug, Clone, Copy, PartialEq, Eq, Structural)]
pub enum OpenStep {
    Go(OpenStage),
    /// Opening has failed: the input is to be closed, and the codec freed first
    /// where there is one.
    Abandon { free_codec: bool, close_input: bool },
}

/// Whether the codec context exists while a stage is done.
pub open spec fn has_codec(stage: OpenStage) -> bool {
    match stage {
        OpenStage::CopyParameters | OpenStage::OpenCodec | OpenStage::AllocatePacket => true,
        _ => false,
    }
}

/// The stage that follows.
pub open spec fn next_stage(stage: OpenStage) -> OpenStage {
    match stage {
        OpenStage::ReadStreamInfo => OpenStage::FindAudioStream,
        OpenStage::FindAudioStream => OpenStage::CheckParameters,
        OpenStage::CheckParameters => OpenStage::AllocateCodec,
        OpenStage::AllocateCodec => OpenStage::CopyParameters,
        OpenStage::CopyParameters => OpenStage::OpenCodec,
        OpenStage::OpenCodec => OpenStage::AllocatePacket,
        _ => OpenStage::Opened,
    }
}

/// Moves opening on: a stage that went well leads to the next, and one that
/// failed to the release of whatever exists by then.
pub fn open_step(stage: OpenStage, went_well: bool) -> (r: OpenStep)
    ensures
        went_well ==> r == OpenStep::Go(next_stage(stage)),
        !went_well ==> r == (OpenStep::Abandon { free_codec: has_codec(stage), close_input: true }),
{
    if went_well {
        let next = match stage {
            OpenStage::ReadStreamInfo => OpenStage::FindAudioStream,
            OpenStage::FindAudioStream => OpenStage::CheckParameters,
            OpenStage::CheckParameters => OpenStage::AllocateCodec,
            OpenStage::AllocateCodec => OpenStage::CopyParameters,
            OpenStage::CopyParameters => OpenStage::OpenCodec,
            OpenStage::OpenCodec => OpenStage::AllocatePacket,
            OpenStage::AllocatePacket => OpenStage::Opened,
            OpenStage::Opened => OpenStage::Opened,
        };
        OpenStep::Go(next)
    } else {
        let free_codec: bool = match stage {
            OpenStage::CopyParameters => true,
            OpenStage::OpenCodec => true,
            OpenStage::AllocatePacket => true,
            _ => false,
        };
        OpenStep::Abandon { free_codec, close_input: true }
    }
}

/// The time stamp that counts as the start of a stream.
pub fn timeline_origin(start_time: Option<i64>) -> (r: i64)
    ensures
        r == match start_time {
            Some(t) if t > 0 => t,
            _ => 0,
        },
{
    match start_time {
        Some(t) => if t > 0 {
            t
        } else {
            0
        },
        None => 0,
    }
}

/// The bits of a sample that carry sound, as the stream tells them: the raw
/// number, or else the coded one; 0 where neither is one of 8 bits.
pub fn valid_bits_hint(raw_bits: i32, coded_bits: i32) -> (r: u8)
    ensures
        ({
            let told = if raw_bits > 0 {
                raw_bits
            } else {
                coded_bits
            };
            r == if 0 <= told <= 255 {
                told as int
            } else {
                0
            }
        }),
{
    let told: i32 = if raw_bits > 0 {
        raw_bits
    } else {
        coded_bits
    };
    if 0 <= told && told <= 255 {
        told as u8
    } else {
        0
    }
}

// ---------------------------------------------------------------------------
// Packets and frames
// ---------------------------------------------------------------------------

/// How a call to the codec went, with its code.
#[derive(Debug, Clone, Copy, PartialEq, Eq, Structural)]
pub enum CodecResult {
    Done,
    EndOfStream(i32),
    Again(i32),
    Failed(i32),
}

/// What reading a packet from the input gave.
#[derive(Debug, Clone, Copy, PartialEq, Eq, Structural)]
pub enum PacketResult {
    EndOfInput,
    /// A packet of the stream that is played.
    Audio,
    /// A packet of another stream.
    OtherStream,
    Failed(i32),
}

/// What the session does next to get a frame.
#[derive(Debug, Clone, Copy, PartialEq, Eq, Structural)]
pub enum ReadAction {
    /// Ask the codec for a frame.
    Receive,
    /// Take the frame that the codec gave.
    Accept,
    /// There are no more frames.
    End,
    /// Read a packet from the input.
    ReadPacket,
    /// Hand the packet to the codec.
    SendPacket,
    /// Tell the codec that the input is at its end.
    Flush,
    Fail(DirectPcmError),
}

/// How far a decoder session has come.
#[derive(Debug, Clone, Copy, PartialEq, Eq, Structural)]
pub struct DecoderSession {
    /// The codec knows that the input is at its end.
    pub flushing: bool,
    /// The codec has given its last frame.
    pub drained: bool,
}

impl DecoderSession {
    /// A session at the start, or after a seek.
    pub fn new() -> (r: Self)
        ensures
            r == (DecoderSession { flushing: false, drained: false }),
    {
        DecoderSession { flushing: false, drained: false }
    }

    /// Begins to get a frame.
    pub fn begin_read(&self) -> (r: ReadAction)
        ensures
            r == if self.drained {
                ReadAction::End
            } else {
                ReadAction::Receive
            },
    {
        if self.drained {
            ReadAction::End
        } else {
            ReadAction::Receive
        }
    }

    /// Goes on after the codec was asked for a frame. A codec that was told of
    /// the end may not ask for more.
    pub fn received(&mut self, result: CodecResult) -> (r: ReadAction)
        ensures
            final(self).flushing == old(self).flushing,
            final(self).drained == (old(self).drained || result is EndOfStream),
            r == match result {
                CodecResult::Done => ReadAction::Accept,
                CodecResult::EndOfStream(_) => ReadAction::End,
                CodecResult::Failed(code) => ReadAction::Fail(DirectPcmError::Decoder(code)),
                CodecResult::Again(_) => if old(self).flushing {
                    ReadAction::Fail(DirectPcmError::FlushedDecoderStarved)
                } else {
                    ReadAction::ReadPacket
                },
            },
    {
        match result {
            CodecResult::Done => ReadAction::Accept,
            CodecResult::EndOfStream(_) => {
                self.drained = true;
                ReadAction::End
            },
            CodecResult::Failed(code) => ReadAction::Fail(DirectPcmError::Decoder(code)),
            CodecResult::Again(_) => {
                if self.flushing {
                    ReadAction::Fail(DirectPcmError::FlushedDecoderStarved)
                } else {
                    ReadAction::ReadPacket
                }
            },
        }
    }

    /// Goes on after a packet was read: packets of other streams are passed over.
    pub fn packet_read(&self, result: PacketResult) -> (r: ReadAction)
        ensures
            r == match result {
                PacketResult::EndOfInput => ReadAction::Flush,
                PacketResult::Audio => ReadAction::SendPacket,
                PacketResult::OtherStream => ReadAction::ReadPacket,
                PacketResult::Failed(code) => ReadAction::Fail(DirectPcmError::Decoder(code)),
            },
    {
        match result {
            PacketResult::EndOfInput => ReadAction::Flush,
            PacketResult::Audio => ReadAction::SendPacket,
            PacketResult::OtherStream => ReadAction::ReadPacket,
            PacketResult::Failed(code) => ReadAction::Fail(DirectPcmError::Decoder(code)),
        }
    }

    /// Goes on after a packet was handed to the codec.
    pub fn packet_sent(&self, result: CodecResult) -> (r: ReadAction)
        ensures
            r == match result {
                CodecResult::Done => ReadAction::Receive,
                CodecResult::Again(_) => ReadAction::Receive,
                CodecResult::EndOfStream(code) => ReadAction::Fail(DirectPcmError::Decoder(code)),
                CodecResult::Failed(code) => ReadAction::Fail(DirectPcmError::Decoder(code)),
            },
    {
        match result {
            CodecResult::Done => ReadAction::Receive,
            CodecResult::Again(_) => ReadAction::Receive,
            CodecResult::EndOfStream(code) => ReadAction::Fail(DirectPcmError::Decoder(code)),
            CodecResult::Failed(code) => ReadAction::Fail(DirectPcmError::Decoder(code)),
        }
    }

    /// Goes on after the codec was told of the end of the input.
    pub fn flushed(&mut self, result: CodecResult) -> (r: ReadAction)
        ensures
            final(self).drained == old(self).drained,
            match result {
                CodecResult::Done | CodecResult::EndOfStream(_) => final(self).flushing && r
                    == ReadAction::Receive,
                CodecResult::Again(code) | CodecResult::Failed(code) => final(self).flushing == old(
                    self).flushing && r == ReadAction::Fail(DirectPcmError::Decoder(code)),
            },
    {
        match result {
            CodecResult::Done => {
                self.flushing = true;
                ReadAction::Receive
            },
            CodecResult::EndOfStream(_) => {
                self.flushing = true;
                ReadAction::Receive
            },
            CodecResult::Again(code) => ReadAction::Fail(DirectPcmError::Decoder(code)),
            CodecResult::Failed(code) => ReadAction::Fail(DirectPcmError::Decoder(code)),
        }
    }
}

// ---------------------------------------------------------------------------
// Seeking
// ---------------------------------------------------------------------------

/// A number, brought into the range of an `i64`.
pub open spec fn clamp_i64(n: int) -> int {
    if n > i64::MAX {
        i64::MAX as int
    } else if n < i64::MIN {
        i64::MIN as int
    } else {
        n
    }
}

fn to_i64(n: i128) -> (r: i64)
    ensures
        r == clamp_i64(n as int),
{
    if n > i64::MAX as i128 {
        i64::MAX
    } else if n < i64::MIN as i128 {
        i64::MIN
    } else {
        n as i64
    }
}

/// The time stamp to seek to, in the stream's own units.
pub fn seek_timestamp(rescaled: i64, origin: i64) -> (r: i64)
    ensures
        r == clamp_i64(rescaled + origin),
{
    to_i64(rescaled as i128 + origin as i128)
}

/// The time stamp of a frame: the best guess, or else the one it carries.
pub fn frame_timestamp(best_effort: Option<i64>, pts: Option<i64>) -> (r: Result<
    i64,
    DirectPcmError,
>)
    ensures
        r == match best_effort {
            Some(t) => Ok::<i64, DirectPcmError>(t),
            None => match pts {
                Some(t) => Ok(t),
                None => Err(DirectPcmError::TimestampMissing),
            },
        },
{
    match best_effort {
        Some(t) => Ok(t),
        None => match pts {
            Some(t) => Ok(t),
            None => Err(DirectPcmError::TimestampMissing),
        },
    }
}

/// What a frame is to an accurate seek.
#[derive(Debug, Clone, Copy, PartialEq, Eq, Structural)]
pub enum SeekStep {
    /// It ends before the target: read on.
    Skip,
    /// It holds the target: its first `offset` samples are cut off, and what is
    /// left begins at `actual_us`.
    Take { offset: usize, actual_us: i64 },
}

/// Samples of a frame before the target of a seek.
pub open spec fn samples_before(target_us: int, start_us: int, rate: int) -> int {
    let delta = clamp_i64(target_us - start_us);
    if delta <= 0 {
        0
    } else {
        let scaled = delta * rate;
        (if scaled > u64::MAX {
            u64::MAX as int
        } else {
            scaled
        }) / 1_000_000
    }
}

/// What a frame of `samples` samples that begins at `start_us` is to a seek.
pub open spec fn seek_outcome(target_us: int, start_us: int, samples: int, rate: int) -> SeekStep {
    let end_us = clamp_i64(start_us + samples * 1_000_000 / rate);
    let offset = samples_before(target_us, start_us, rate);
    let actual = clamp_i64(start_us + offset * 1_000_000 / rate);
    if end_us < target_us || offset >= samples {
        SeekStep::Skip
    } else {
        SeekStep::Take {
            offset: offset as usize,
            actual_us: (if actual < 0 {
                0
            } else {
                actual
            }) as i64,
        }
    }
}

/// Settles what a frame is to an accurate seek.
pub fn seek_step(target_us: i64, frame_start_us: i64, samples: i32, sample_rate: i32) -> (r: Result<
    SeekStep,
    DirectPcmError,
>)
    ensures
        r == if samples < 0 {
            Err::<SeekStep, DirectPcmError>(DirectPcmError::NoSamples)
        } else if sample_rate <= 0 {
            Err(DirectPcmError::SampleRate)
        } else {
            Ok(
                seek_outcome(
                    target_us as int,
                    frame_start_us as int,
                    samples as int,
                    sample_rate as int,
                ),
            )
        },
{
    if samples < 0 {
        return Err(DirectPcmError::NoSamples);
    }
    if sample_rate <= 0 {
        return Err(DirectPcmError::SampleRate);
    }
    let rate: i128 = sample_rate as i128;
    let total: i128 = samples as i128;
    let start: i128 = frame_start_us as i128;
    proof {
        assert(0 <= (total * 1_000_000) / (rate as int) <= total * 1_000_000) by (nonlinear_arith)
            requires
                0 <= total,
                1 <= rate,
        ;
    }
    let end_us: i64 = to_i64(start + total * 1_000_000 / rate);
    if end_us < target_us {
        return Ok(SeekStep::Skip);
    }
    let delta: i64 = to_i64(target_us as i128 - start);
    let offset: i128 = if delta <= 0 {
        0
    } else {
        let wide: i128 = delta as i128;
        proof {
            assert(0 <= wide * rate <= 0x7fff_ffff_ffff_ffff * 0x7fff_ffff) by (nonlinear_arith)
                requires
                    0 <= wide <= 0x7fff_ffff_ffff_ffff,
                    0 <= rate <= 0x7fff_ffff,
            ;
        }
        let scaled: i128 = wide * rate;
        let limited: i128 = if scaled > u64::MAX as i128 {
            u64::MAX as i128
        } else {
            scaled
        };
        limited / 1_000_000
    };
    if offset >= total {
        return Ok(SeekStep::Skip);
    }
    proof {
        assert(0 <= (offset * 1_000_000) / (rate as int) <= offset * 1_000_000) by (nonlinear_arith)
            requires
                0 <= offset,
                1 <= rate,
        ;
    }
    let actual: i64 = to_i64(start + offset * 1_000_000 / rate);
    Ok(
        SeekStep::Take {
            offset: offset as usize,
            actual_us: if actual < 0 {
                0
            } else {
                actual
            },
        },
    )
}

/// A seek into a frame cuts off exactly the samples before the target: what is left
/// begins with the last sample at or before it, and the position that is told is
/// that sample's.
pub proof fn law_seek_is_sample_accurate(target_us: int, start_us: int, samples: int, rate: int)
    requires
        0 <= start_us <= target_us <= i64::MAX,
        0 < samples <= i32::MAX,
        0 < rate <= i32::MAX,
    ensures
        seek_outcome(target_us, start_us, samples, rate) matches SeekStep::Take {
            offset,
            actual_us,
        } ==> {
            &&& offset < samples
            &&& offset == samples_before(target_us, start_us, rate)
            &&& offset * 1_000_000 <= (target_us - start_us) * rate
            &&& (target_us - start_us) * rate < (offset + 1) * 1_000_000
            &&& actual_us == start_us + offset * 1_000_000 / rate
            &&& actual_us <= target_us
        },
{
    let delta = target_us - start_us;
    assert(0 <= delta * rate) by (nonlinear_arith)
        requires
            0 <= delta,
            rate > 0,
    ;
    if seek_outcome(target_us, start_us, samples, rate) is Take {
        lemma_samples_before(delta, samples, rate);
        let offset = samples_before(target_us, start_us, rate);
        assert(0 <= (offset * 1_000_000) / rate <= delta) by (nonlinear_arith)
            requires
                offset * 1_000_000 <= delta * rate,
                0 <= offset,
                rate > 0,
        ;
    }
}

/// Samples before a target that a frame holds are counted without a bound.
proof fn lemma_samples_before(delta: int, samples: int, rate: int)
    requires
        0 <= delta <= i64::MAX,
        0 < samples <= i32::MAX,
        0 < rate,
        samples_before(delta, 0, rate) < samples,
    ensures
        samples_before(delta, 0, rate) == delta * rate / 1_000_000,
{
    if delta == 0 {
        assert(delta * rate == 0) by (nonlinear_arith)
            requires
                delta == 0,
        ;
    }
}

/// The first frame that reaches the target of a seek is the one that is taken: a
/// frame is passed over only where all of its samples lie before the target, and a
/// frame that begins at or behind the target is taken whole.
pub proof fn law_seek_takes_the_frame_of_the_target(
    target_us: int,
    start_us: int,
    samples: int,
    rate: int,
)
    requires
        0 <= start_us <= i64::MAX,
        0 <= target_us <= i64::MAX,
        0 < samples <= i32::MAX,
        0 < rate <= i32::MAX,
    ensures
        target_us > start_us && (target_us - start_us) * rate < samples * 1_000_000
            ==> seek_outcome(target_us, start_us, samples, rate) is Take,
        target_us > start_us && (target_us - start_us) * rate >= samples * 1_000_000
            ==> seek_outcome(target_us, start_us, samples, rate) is Skip,
        target_us <= start_us ==> (seek_outcome(target_us, start_us, samples, rate)
            matches SeekStep::Take { offset, actual_us } && offset == 0 && actual_us == start_us),
{
    let delta = target_us - start_us;
    let length = samples * 1_000_000;
    assert(0 <= length / rate) by (nonlinear_arith)
        requires
            0 <= length,
            0 < rate,
    ;
    if delta > 0 {
        assert(0 <= delta * rate) by (nonlinear_arith)
            requires
                0 <= delta,
                rate > 0,
        ;
        if delta * rate < length {
            assert(delta <= length / rate) by (nonlinear_arith)
                requires
                    delta * rate < length,
                    0 < rate,
            ;
        }
    } else {
        assert(0int * 1_000_000 / rate == 0) by (nonlinear_arith)
            requires
                rate > 0,
        ;
    }
}

// ---------------------------------------------------------------------------
// Custom input
// ---------------------------------------------------------------------------

/// What a custom input answers to a request for bytes.
#[derive(Debug, Clone, Copy, PartialEq, Eq, Structural)]
pub enum AvioRead {
    EndOfInput,
    Bytes(i32),
    IoError,
}

/// The answer to a request for up to `buffer_size` bytes, from what reading
/// gave; a request for nothing is answered with the end of input.
pub fn avio_read_packet(buffer_size: i32, read: Option<usize>) -> (r: AvioRead)
    requires
        read matches Some(n) ==> buffer_size > 0 ==> n <= buffer_size,
    ensures
        r == if buffer_size <= 0 {
            AvioRead::EndOfInput
        } else {
            match read {
                Some(0) => AvioRead::EndOfInput,
                Some(n) => AvioRead::Bytes(n as i32),
                None => AvioRead::IoError,
            }
        },
{
    if buffer_size <= 0 {
        return AvioRead::EndOfInput;
    }
    match read {
        Some(n) => {
            if n == 0 {
                AvioRead::EndOfInput
            } else {
                AvioRead::Bytes(n as i32)
            }
        },
        None => AvioRead::IoError,
    }
}

/// What a custom input is asked to do by a seek.
#[derive(Debug, Clone, Copy, PartialEq, Eq, Structural)]
pub enum AvioSeek {
    /// Tell the length.
    Size,
    Start(u64),
    Current(i64),
    End(i64),
    Invalid,
}

/// Asks for the length in place of a seek.
pub const AVSEEK_SIZE: i32 = 0x1_0000;

/// Reads a seek request: where from, and the request for the length. The flag
/// that forces a seek is of no account.
pub fn avio_seek(offset: i64, whence: i32) -> (r: AvioSeek)
    ensures
        r == if whence == AVSEEK_SIZE {
            AvioSeek::Size
        } else if whence & !0x2_0000i32 == 0 {
            AvioSeek::Start(offset as u64)
        } else if whence & !0x2_0000i32 == 1 {
            AvioSeek::Current(offset)
        } else if whence & !0x2_0000i32 == 2 {
            AvioSeek::End(offset)
        } else {
            AvioSeek::Invalid
        },
{
    if whence == AVSEEK_SIZE {
        return AvioSeek::Size;
    }
    let from: i32 = whence & !0x2_0000i32;
    if from == 0 {
        AvioSeek::Start(
            #[verifier::truncate]
            (offset as u64),
        )
    } else if from == 1 {
        AvioSeek::Current(offset)
    } else if from == 2 {
        AvioSeek::End(offset)
    } else {
        AvioSeek::Invalid
    }
}

} // verus!
