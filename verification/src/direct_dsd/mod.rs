//! Native DSD delivery: reading DSF and DFF payloads bit for bit, and the ring
//! of blocks between the producer and the device.

pub mod laws;
pub mod producer;
pub mod reader;
pub mod ring;
pub mod runs;
pub mod repack;

use vstd::prelude::*;

verus! {

/// Which bit of a byte comes first in time.
#[derive(Debug, Clone, Copy, PartialEq, Eq, Structural)]
pub enum DirectDsdBitOrder {
    LsbFirst,
    MsbFirst,
}

/// The container a DSD stream came from.
#[derive(Debug, Clone, Copy, PartialEq, Eq, Structural)]
pub enum DirectDsdContainer {
    Dsf,
    Dff,
}

/// Format of a native DSD stream.
#[derive(Debug, Clone, Copy, PartialEq, Eq, Structural)]
pub struct DirectDsdFormat {
    pub bit_rate: u32,
    pub channels: u16,
    pub bit_order: DirectDsdBitOrder,
    pub container: DirectDsdContainer,
}

/// Why a native DSD stream cannot be opened, moved or handed on.
#[derive(Debug, Clone, Copy, PartialEq, Eq, Structural)]
pub enum DirectDsdError {
    /// The file is too short to tell its container.
    HeaderTruncated,
    /// Neither DSF nor DFF.
    UnsupportedContainer,
    /// A disc image as a whole, where a track of it is needed.
    BareDiscImage,
    DsfHeaderTruncated,
    DsfHeaderInvalid,
    DsfHeaderSize,
    DsfFmtTruncated,
    DsfFmtMissing,
    DsfFmtTooShort,
    DsfFmtPayloadTruncated,
    DsfNotRaw,
    DsfChannels(u32),
    DsfBitRate,
    DsfBitsPerSample(u32),
    DsfBlockSize,
    DsfSampleAlignment,
    DsfDataMissing,
    DsfChunkSize,
    DsfChunkBounds,
    DsfLengthOverflow,
    DsfDataTooShort,
    DffHeaderTruncated,
    DffFormInvalid,
    DffChunkBounds,
    DffPropertyNotSound,
    DffPropertyBounds,
    DffSampleRateMissing,
    DffChannels(u16),
    DffCompressed,
    DffDataMissing,
    DffDataAlignment,
    RepackParameters,
    RepackInputTooSmall,
    RepackAlignment,
    OutputTooSmall,
    /// A slot to fill was not free.
    SlotBusy,
    /// The source has no payload where one is needed.
    NoPayload,
    /// The new source does not fit the connection.
    TransportMismatch,
}

impl DirectDsdError {
    /// The text of the error.
    pub open spec fn text(self) -> Seq<char> {
        match self {
            DirectDsdError::HeaderTruncated => "读取 DSD 文件头失败"@,
            DirectDsdError::UnsupportedContainer => "Source Direct Native DSD 仅支持 DSF/DFF/SACD ISO"@,
            DirectDsdError::BareDiscImage => {
                "SACD ISO 需经曲库虚拟轨播放，不支持裸路径"@
            },
            DirectDsdError::DsfHeaderTruncated => "读取 DSF DSD chunk 失败"@,
            DirectDsdError::DsfHeaderInvalid => "DSF DSD chunk magic 无效"@,
            DirectDsdError::DsfHeaderSize => "DSF DSD chunk size 无效"@,
            DirectDsdError::DsfFmtTruncated => "读取 DSF fmt chunk 失败"@,
            DirectDsdError::DsfFmtMissing => "DSF fmt chunk 缺失"@,
            DirectDsdError::DsfFmtTooShort => "DSF fmt chunk 太短"@,
            DirectDsdError::DsfFmtPayloadTruncated => "读取 DSF fmt payload 失败"@,
            DirectDsdError::DsfNotRaw => "DSF 非 raw DSD format_id 不支持"@,
            DirectDsdError::DsfChannels(_) => "DSF 声道数不支持"@,
            DirectDsdError::DsfBitRate => "DSF DSD bit rate 无效"@,
            DirectDsdError::DsfBitsPerSample(_) => "DSF bits_per_sample 不支持"@,
            DirectDsdError::DsfBlockSize => "DSF block size 必须为 4 字节倍数"@,
            DirectDsdError::DsfSampleAlignment => {
                "DSF sample count 无法无损对齐 Diretta DSD_SIZ_32"@
            },
            DirectDsdError::DsfDataMissing => "DSF 未找到 data chunk"@,
            DirectDsdError::DsfChunkSize => "DSF chunk size 无效"@,
            DirectDsdError::DsfChunkBounds => "DSF chunk 越界"@,
            DirectDsdError::DsfLengthOverflow => "DSF stored payload 长度溢出"@,
            DirectDsdError::DsfDataTooShort => "DSF data chunk 不足以容纳声明的 samples"@,
            DirectDsdError::DffHeaderTruncated => "读取 DFF FRM8 失败"@,
            DirectDsdError::DffFormInvalid => "DFF FORM 类型无效"@,
            DirectDsdError::DffChunkBounds => "DFF chunk 越界"@,
            DirectDsdError::DffPropertyNotSound => "DFF PROP 不是 SND"@,
            DirectDsdError::DffPropertyBounds => "DFF PROP subchunk 越界"@,
            DirectDsdError::DffSampleRateMissing => "DFF 缺少 FS sample rate"@,
            DirectDsdError::DffChannels(_) => "DFF 声道数不支持"@,
            DirectDsdError::DffCompressed => "DFF 仅支持未压缩 native DSD，DST/其他压缩显式拒绝"@,
            DirectDsdError::DffDataMissing => "DFF 缺少 DSD data chunk"@,
            DirectDsdError::DffDataAlignment => {
                "DFF data 无法无损对齐 Diretta DSD_SIZ_32"@
            },
            DirectDsdError::RepackParameters => "DSF repack 参数无效"@,
            DirectDsdError::RepackInputTooSmall => "DSF repack input 太小"@,
            DirectDsdError::RepackAlignment => "DFF repack input 未按 DSD_SIZ_32 对齐"@,
            DirectDsdError::OutputTooSmall => "DSF output buffer 太小"@,
            DirectDsdError::SlotBusy => "Native DSD slot 状态无效"@,
            DirectDsdError::NoPayload => "Native DSD 音源没有可播放 payload"@,
            DirectDsdError::TransportMismatch => {
                "[Direct] 新音源 Native DSD wire format 与当前 Diretta connection 不一致"@
            },
        }
    }

    /// A description of the error.
    pub fn message(&self) -> (r: &'static str)
        ensures
            r@ == self.text(),
    {
        match self {
            DirectDsdError::HeaderTruncated => "读取 DSD 文件头失败",
            DirectDsdError::UnsupportedContainer => "Source Direct Native DSD 仅支持 DSF/DFF/SACD ISO",
            DirectDsdError::BareDiscImage => {
                "SACD ISO 需经曲库虚拟轨播放，不支持裸路径"
            },
            DirectDsdError::DsfHeaderTruncated => "读取 DSF DSD chunk 失败",
            DirectDsdError::DsfHeaderInvalid => "DSF DSD chunk magic 无效",
            DirectDsdError::DsfHeaderSize => "DSF DSD chunk size 无效",
            DirectDsdError::DsfFmtTruncated => "读取 DSF fmt chunk 失败",
            DirectDsdError::DsfFmtMissing => "DSF fmt chunk 缺失",
            DirectDsdError::DsfFmtTooShort => "DSF fmt chunk 太短",
            DirectDsdError::DsfFmtPayloadTruncated => "读取 DSF fmt payload 失败",
            DirectDsdError::DsfNotRaw => "DSF 非 raw DSD format_id 不支持",
            DirectDsdError::DsfChannels(_) => "DSF 声道数不支持",
            DirectDsdError::DsfBitRate => "DSF DSD bit rate 无效",
            DirectDsdError::DsfBitsPerSample(_) => "DSF bits_per_sample 不支持",
            DirectDsdError::DsfBlockSize => "DSF block size 必须为 4 字节倍数",
            DirectDsdError::DsfSampleAlignment => {
                "DSF sample count 无法无损对齐 Diretta DSD_SIZ_32"
            },
            DirectDsdError::DsfDataMissing => "DSF 未找到 data chunk",
            DirectDsdError::DsfChunkSize => "DSF chunk size 无效",
            DirectDsdError::DsfChunkBounds => "DSF chunk 越界",
            DirectDsdError::DsfLengthOverflow => "DSF stored payload 长度溢出",
            DirectDsdError::DsfDataTooShort => "DSF data chunk 不足以容纳声明的 samples",
            DirectDsdError::DffHeaderTruncated => "读取 DFF FRM8 失败",
            DirectDsdError::DffFormInvalid => "DFF FORM 类型无效",
            DirectDsdError::DffChunkBounds => "DFF chunk 越界",
            DirectDsdError::DffPropertyNotSound => "DFF PROP 不是 SND",
            DirectDsdError::DffPropertyBounds => "DFF PROP subchunk 越界",
            DirectDsdError::DffSampleRateMissing => "DFF 缺少 FS sample rate",
            DirectDsdError::DffChannels(_) => "DFF 声道数不支持",
            DirectDsdError::DffCompressed => "DFF 仅支持未压缩 native DSD，DST/其他压缩显式拒绝",
            DirectDsdError::DffDataMissing => "DFF 缺少 DSD data chunk",
            DirectDsdError::DffDataAlignment => {
                "DFF data 无法无损对齐 Diretta DSD_SIZ_32"
            },
            DirectDsdError::RepackParameters => "DSF repack 参数无效",
            DirectDsdError::RepackInputTooSmall => "DSF repack input 太小",
            DirectDsdError::RepackAlignment => "DFF repack input 未按 DSD_SIZ_32 对齐",
            DirectDsdError::OutputTooSmall => "DSF output buffer 太小",
            DirectDsdError::SlotBusy => "Native DSD slot 状态无效",
            DirectDsdError::NoPayload => "Native DSD 音源没有可播放 payload",
            DirectDsdError::TransportMismatch => {
                "[Direct] 新音源 Native DSD wire format 与当前 Diretta connection 不一致"
            },
        }
    }
}

/// Whether two formats can share a connection: the same rate and channels.
pub open spec fn same_transport(left: DirectDsdFormat, right: DirectDsdFormat) -> bool {
    left.bit_rate == right.bit_rate && left.channels == right.channels
}

/// Tests whether two formats can share a connection.
pub fn same_dsd_transport(left: DirectDsdFormat, right: DirectDsdFormat) -> (r: bool)
    ensures
        r == same_transport(left, right),
{
    left.bit_rate == right.bit_rate && left.channels == right.channels
}

} // verus!
