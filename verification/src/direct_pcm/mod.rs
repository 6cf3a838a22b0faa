//! PCM delivery without a mixer: what a decoded frame becomes on the wire, the
//! fade that ends it, and the ring of blocks between the decoder and the device.

pub mod decoder;
pub mod fade;
pub mod frame;
pub mod laws;
pub mod producer;
pub mod ring;
pub mod runs;

use vstd::prelude::*;

verus! {

/// How a sample is stored on the wire.
#[derive(Debug, Clone, Copy, PartialEq, Eq, Structural)]
pub enum DirectPcmSampleFormat {
    Signed16,
    Signed32,
}

/// Whether the decoder's memory is handed on as it is or is rearranged first.
#[derive(Debug, Clone, Copy, PartialEq, Eq, Structural)]
pub enum DirectPcmMemoryPath {
    ZeroCopyPacked,
    BitPerfectRepack,
}

/// Format of a PCM stream on the wire.
#[derive(Debug, Clone, Copy, PartialEq, Eq, Structural)]
pub struct DirectPcmFormat {
    pub sample_rate: u32,
    pub channels: u16,
    pub valid_bits: u8,
    pub storage_bits: u8,
    pub sample_format: DirectPcmSampleFormat,
    pub memory_path: DirectPcmMemoryPath,
}

/// Why a decoded frame or a change of source is refused.
#[derive(Debug, Clone, Copy, PartialEq, Eq, Structural)]
pub enum DirectPcmError {
    UnsupportedSampleFormat(i32),
    SampleRate,
    Channels,
    NoSamples,
    PayloadOverflow,
    DataMissing,
    LineSize,
    FrameBufferTooSmall,
    PlaneMissing,
    SeekOffset,
    RepackFormatChanged,
    RepackBufferMismatch,
    RepackBufferTooSmall,
    TimestampMissing,
    FlushedDecoderStarved,
    Decoder(i32),
    EmptyFrame,
    FormatChanged,
    TransportMismatch,
    NoFrame,
}

impl DirectPcmError {
    /// The text of the error.
    pub open spec fn text(self) -> Seq<char> {
        match self {
            DirectPcmError::UnsupportedSampleFormat(_) => {
                "Source Direct strict mode 不支持 FFmpeg sample format"@
            },
            DirectPcmError::SampleRate => "Source Direct frame 采样率无效"@,
            DirectPcmError::Channels => "Source Direct frame 声道数无效"@,
            DirectPcmError::NoSamples => "Source Direct frame 没有 PCM samples"@,
            DirectPcmError::PayloadOverflow => "Source Direct PCM payload 长度溢出"@,
            DirectPcmError::DataMissing => "Source Direct packed PCM 缺少 data[0]"@,
            DirectPcmError::LineSize => "Source Direct PCM linesize 无效"@,
            DirectPcmError::FrameBufferTooSmall => "Source Direct PCM payload 超过 FFmpeg frame buffer"@,
            DirectPcmError::PlaneMissing => "Source Direct planar PCM plane 为空"@,
            DirectPcmError::SeekOffset => "Source Direct seek offset 超过当前 frame"@,
            DirectPcmError::RepackFormatChanged => "Source Direct planar PCM sample format 在播放中发生变化"@,
            DirectPcmError::RepackBufferMismatch => "Source Direct planar repack buffer 类型不匹配"@,
            DirectPcmError::RepackBufferTooSmall => "Source Direct planar repack buffer 太小"@,
            DirectPcmError::TimestampMissing => "Source Direct accurate seek 需要有效 frame timestamp"@,
            DirectPcmError::FlushedDecoderStarved => "Source Direct decoder flush 后意外返回 EAGAIN"@,
            DirectPcmError::Decoder(_) => "Source Direct decoder 失败"@,
            DirectPcmError::EmptyFrame => "Source Direct frame 尚未填充"@,
            DirectPcmError::FormatChanged => "Source Direct PCM seek 后音频格式发生变化"@,
            DirectPcmError::TransportMismatch => "[Direct] 新音源 PCM wire format 与当前 Diretta connection 不一致"@,
            DirectPcmError::NoFrame => "Source Direct 音源没有可播放 PCM frame"@,
        }
    }

    /// A description of the error.
    pub fn message(&self) -> (r: &'static str)
        ensures
            r@ == self.text(),
    {
        match self {
            DirectPcmError::UnsupportedSampleFormat(_) => {
                "Source Direct strict mode 不支持 FFmpeg sample format"
            },
            DirectPcmError::SampleRate => "Source Direct frame 采样率无效",
            DirectPcmError::Channels => "Source Direct frame 声道数无效",
            DirectPcmError::NoSamples => "Source Direct frame 没有 PCM samples",
            DirectPcmError::PayloadOverflow => "Source Direct PCM payload 长度溢出",
            DirectPcmError::DataMissing => "Source Direct packed PCM 缺少 data[0]",
            DirectPcmError::LineSize => "Source Direct PCM linesize 无效",
            DirectPcmError::FrameBufferTooSmall => "Source Direct PCM payload 超过 FFmpeg frame buffer",
            DirectPcmError::PlaneMissing => "Source Direct planar PCM plane 为空",
            DirectPcmError::SeekOffset => "Source Direct seek offset 超过当前 frame",
            DirectPcmError::RepackFormatChanged => "Source Direct planar PCM sample format 在播放中发生变化",
            DirectPcmError::RepackBufferMismatch => "Source Direct planar repack buffer 类型不匹配",
            DirectPcmError::RepackBufferTooSmall => "Source Direct planar repack buffer 太小",
            DirectPcmError::TimestampMissing => "Source Direct accurate seek 需要有效 frame timestamp",
            DirectPcmError::FlushedDecoderStarved => "Source Direct decoder flush 后意外返回 EAGAIN",
            DirectPcmError::Decoder(_) => "Source Direct decoder 失败",
            DirectPcmError::EmptyFrame => "Source Direct frame 尚未填充",
            DirectPcmError::FormatChanged => "Source Direct PCM seek 后音频格式发生变化",
            DirectPcmError::TransportMismatch => "[Direct] 新音源 PCM wire format 与当前 Diretta connection 不一致",
            DirectPcmError::NoFrame => "Source Direct 音源没有可播放 PCM frame",
        }
    }
}

/// Whether two formats can share a connection: the same rate, channels and
/// width of storage.
pub open spec fn same_transport(left: DirectPcmFormat, right: DirectPcmFormat) -> bool {
    &&& left.sample_rate == right.sample_rate
    &&& left.channels == right.channels
    &&& left.storage_bits == right.storage_bits
}

/// Tests whether two formats can share a connection.
pub fn same_pcm_transport(left: DirectPcmFormat, right: DirectPcmFormat) -> (r: bool)
    ensures
        r == same_transport(left, right),
{
    left.sample_rate == right.sample_rate && left.channels == right.channels && left.storage_bits
        == right.storage_bits
}

/// Sharing a connection is an equivalence: a chain of handoffs never leaves the
/// wire format of its first source.
pub proof fn law_same_transport_is_an_equivalence(
    a: DirectPcmFormat,
    b: DirectPcmFormat,
    c: DirectPcmFormat,
)
    ensures
        same_transport(a, a),
        same_transport(a, b) ==> same_transport(b, a),
        same_transport(a, b) && same_transport(b, c) ==> same_transport(a, c),
{
}

} // verus!
