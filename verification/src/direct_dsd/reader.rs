//! Reader of the native payload of DSF and DFF files.

use vstd::arithmetic::div_mod::{
    lemma_div_denominator, lemma_fundamental_div_mod, lemma_fundamental_div_mod_converse,
};
use vstd::prelude::*;

use super::repack::{block_byte, frame_byte, l4r4, repack_dff_l4r4, repack_dsf_l4r4};
use super::{DirectDsdBitOrder, DirectDsdContainer, DirectDsdError, DirectDsdFormat};
use crate::bytes::{
    be_u16, be_u16_at, be_u32, be_u32_at, be_u64, be_u64_at, has_tag, le_u32, le_u32_at, le_u64,
    le_u64_at, tag_at,
};
use crate::text::{
    all_ascii, ascii_lower_all, ends_with, finishes_with, lowercase, to_chars, to_lowercase,
};

verus! {

/// `"DSD "`.
pub open spec fn dsd_tag() -> (u8, u8, u8, u8) {
    (0x44, 0x53, 0x44, 0x20)
}

/// `"FRM8"`.
pub open spec fn frm8_tag() -> (u8, u8, u8, u8) {
    (0x46, 0x52, 0x4d, 0x38)
}

/// `"fmt "`.
pub open spec fn fmt_tag() -> (u8, u8, u8, u8) {
    (0x66, 0x6d, 0x74, 0x20)
}

/// `"data"`.
pub open spec fn data_tag() -> (u8, u8, u8, u8) {
    (0x64, 0x61, 0x74, 0x61)
}

/// `"PROP"`.
pub open spec fn prop_tag() -> (u8, u8, u8, u8) {
    (0x50, 0x52, 0x4f, 0x50)
}

/// `"SND "`.
pub open spec fn snd_tag() -> (u8, u8, u8, u8) {
    (0x53, 0x4e, 0x44, 0x20)
}

/// `"FS  "`.
pub open spec fn fs_tag() -> (u8, u8, u8, u8) {
    (0x46, 0x53, 0x20, 0x20)
}

/// `"CHNL"`.
pub open spec fn chnl_tag() -> (u8, u8, u8, u8) {
    (0x43, 0x48, 0x4e, 0x4c)
}

/// `"CMPR"`.
pub open spec fn compression_tag() -> (u8, u8, u8, u8) {
    (0x43, 0x4d, 0x50, 0x52)
}

/// Where the payload of a file lies and how its channels are laid out.
#[derive(Debug, Clone, Copy, PartialEq, Eq, Structural)]
pub enum DirectDsdLayout {
    /// Blocks of `block_size` bytes, one per channel in turn.
    Dsf { block_size: usize, data_offset: usize, data_size: usize },
    /// Bytes of the channels in turn.
    Dff { data_offset: usize, data_size: usize },
}

/// What the head of a file says: its format, where the payload lies, and how
/// many bytes each channel has.
#[derive(Debug, Clone, Copy, PartialEq, Eq, Structural)]
pub struct DsdHead {
    pub format: DirectDsdFormat,
    pub layout: DirectDsdLayout,
    pub total_per_channel: usize,
}

// ---------------------------------------------------------------------------
// DSF
// ---------------------------------------------------------------------------

/// The `data` chunk of a DSF file among the chunks from `at` on: the offset and
/// the length of its payload.
pub open spec fn dsf_data(b: Seq<u8>, at: int) -> Result<(int, int), DirectDsdError>
    decreases b.len() - at,
{
    if at + 12 > b.len() {
        Err(DirectDsdError::DsfDataMissing)
    } else {
        let size = le_u64(b, at + 4);
        if size < 12 {
            Err(DirectDsdError::DsfChunkSize)
        } else if at + size > b.len() {
            Err(DirectDsdError::DsfChunkBounds)
        } else if has_tag(b, at, data_tag()) {
            Ok((at + 12, size - 12))
        } else {
            dsf_data(b, at + size)
        }
    }
}

/// Bytes that hold `per_channel` bytes of every channel in whole blocks.
#[verifier::opaque]
pub open spec fn dsf_stored(per_channel: int, block_size: int, ch: int) -> int {
    ((per_channel + block_size - 1) / block_size) * block_size * ch
}

/// What a DSF file says of itself, or why it is refused.
pub open spec fn dsf_head(b: Seq<u8>) -> Result<DsdHead, DirectDsdError> {
    let fmt_size = le_u64(b, 32);
    let channels = le_u32(b, 52);
    let bit_rate = le_u32(b, 56);
    let bits = le_u32(b, 60);
    let samples = le_u64(b, 64);
    let block_size = le_u32(b, 72);
    let per_channel = samples / 8;
    let stored = dsf_stored(per_channel, block_size, channels);
    if b.len() < 28 {
        Err(DirectDsdError::DsfHeaderTruncated)
    } else if !has_tag(b, 0, dsd_tag()) {
        Err(DirectDsdError::DsfHeaderInvalid)
    } else if le_u64(b, 4) < 28 {
        Err(DirectDsdError::DsfHeaderSize)
    } else if b.len() < 40 {
        Err(DirectDsdError::DsfFmtTruncated)
    } else if !has_tag(b, 28, fmt_tag()) {
        Err(DirectDsdError::DsfFmtMissing)
    } else if fmt_size < 52 {
        Err(DirectDsdError::DsfFmtTooShort)
    } else if 28 + fmt_size > b.len() {
        Err(DirectDsdError::DsfFmtPayloadTruncated)
    } else if le_u32(b, 44) != 0 {
        Err(DirectDsdError::DsfNotRaw)
    } else if channels == 0 || channels > 16 {
        Err(DirectDsdError::DsfChannels(channels as u32))
    } else if bit_rate == 0 {
        Err(DirectDsdError::DsfBitRate)
    } else if bits != 1 && bits != 8 {
        Err(DirectDsdError::DsfBitsPerSample(bits as u32))
    } else if block_size == 0 || block_size % 4 != 0 {
        Err(DirectDsdError::DsfBlockSize)
    } else if samples % 32 != 0 {
        Err(DirectDsdError::DsfSampleAlignment)
    } else {
        match dsf_data(b, 28 + fmt_size) {
            Err(e) => Err(e),
            Ok((offset, size)) => if stored > u64::MAX || block_size * channels > usize::MAX {
                Err(DirectDsdError::DsfLengthOverflow)
            } else if size < stored {
                Err(DirectDsdError::DsfDataTooShort)
            } else {
                Ok(
                    DsdHead {
                        format: DirectDsdFormat {
                            bit_rate: bit_rate as u32,
                            channels: channels as u16,
                            bit_order: if bits == 1 {
                                DirectDsdBitOrder::LsbFirst
                            } else {
                                DirectDsdBitOrder::MsbFirst
                            },
                            container: DirectDsdContainer::Dsf,
                        },
                        layout: DirectDsdLayout::Dsf {
                            block_size: block_size as usize,
                            data_offset: offset as usize,
                            data_size: size as usize,
                        },
                        total_per_channel: per_channel as usize,
                    },
                )
            },
        }
    }
}

/// Looks for the `data` chunk among the chunks from `from` on.
fn find_dsf_data_chunk(b: &[u8], from: usize) -> (r: Result<(usize, usize), DirectDsdError>)
    requires
        from <= b@.len(),
    ensures
        match r {
            Ok((offset, size)) => dsf_data(b@, from as int) == Ok::<(int, int), DirectDsdError>(
                (offset as int, size as int),
            ) && offset + size <= b@.len(),
            Err(e) => dsf_data(b@, from as int) == Err::<(int, int), DirectDsdError>(e),
        },
{
    let len: usize = b.len();
    let mut at: usize = from;
    loop
        invariant
            at <= len,
            len == b@.len(),
            dsf_data(b@, from as int) == dsf_data(b@, at as int),
        decreases len - at,
    {
        if len - at < 12 {
            return Err(DirectDsdError::DsfDataMissing);
        }
        let size: u64 = le_u64_at(b, at + 4);
        if size < 12 {
            return Err(DirectDsdError::DsfChunkSize);
        }
        if size > (len - at) as u64 {
            return Err(DirectDsdError::DsfChunkBounds);
        }
        let size: usize = size as usize;
        if tag_at(b, at, (0x64, 0x61, 0x74, 0x61)) {
            return Ok((at + 12, size - 12));
        }
        at += size;
    }
}

/// Bytes that hold the samples in whole blocks, where they and one block of
/// every channel can be counted.
fn dsf_stored_bytes(per_channel: u64, block_size: u32, channels: u32) -> (r: Option<u64>)
    requires
        per_channel <= u64::MAX / 8,
        0 < block_size,
        0 < channels <= 16,
    ensures
        match r {
            Some(stored) => {
                &&& stored == dsf_stored(per_channel as int, block_size as int, channels as int)
                &&& per_channel <= stored
                &&& block_size * channels <= usize::MAX
            },
            None => dsf_stored(per_channel as int, block_size as int, channels as int) > u64::MAX
                || block_size * channels > usize::MAX,
        },
{
    proof {
        lemma_blocks(per_channel as int, block_size as int, channels as int);
        reveal(dsf_stored);
    }
    let wide_block: u64 = block_size as u64;
    let blocks: u64 = (per_channel + (wide_block - 1)) / wide_block;
    let rounded: u64 = blocks * wide_block;
    let group: u64 = wide_block * (channels as u64);
    if group > usize::MAX as u64 {
        return None;
    }
    rounded.checked_mul(channels as u64)
}

/// Reads the head of a DSF file.
pub fn open_dsf(b: &[u8]) -> (r: Result<DsdHead, DirectDsdError>)
    ensures
        r == dsf_head(b@),
        r matches Ok(head) ==> head_fits(head, b@.len() as int),
{
    let len: usize = b.len();
    if len < 28 {
        return Err(DirectDsdError::DsfHeaderTruncated);
    }
    if !tag_at(b, 0, (0x44, 0x53, 0x44, 0x20)) {
        return Err(DirectDsdError::DsfHeaderInvalid);
    }
    if le_u64_at(b, 4) < 28 {
        return Err(DirectDsdError::DsfHeaderSize);
    }
    if len < 40 {
        return Err(DirectDsdError::DsfFmtTruncated);
    }
    if !tag_at(b, 28, (0x66, 0x6d, 0x74, 0x20)) {
        return Err(DirectDsdError::DsfFmtMissing);
    }
    let fmt_size: u64 = le_u64_at(b, 32);
    if fmt_size < 52 {
        return Err(DirectDsdError::DsfFmtTooShort);
    }
    if fmt_size > (len - 28) as u64 {
        return Err(DirectDsdError::DsfFmtPayloadTruncated);
    }
    let fmt_size: usize = fmt_size as usize;
    if le_u32_at(b, 44) != 0 {
        return Err(DirectDsdError::DsfNotRaw);
    }
    let channels: u32 = le_u32_at(b, 52);
    if channels == 0 || channels > 16 {
        return Err(DirectDsdError::DsfChannels(channels));
    }
    let bit_rate: u32 = le_u32_at(b, 56);
    if bit_rate == 0 {
        return Err(DirectDsdError::DsfBitRate);
    }
    let bits: u32 = le_u32_at(b, 60);
    if bits != 1 && bits != 8 {
        return Err(DirectDsdError::DsfBitsPerSample(bits));
    }
    let samples: u64 = le_u64_at(b, 64);
    let block_size: u32 = le_u32_at(b, 72);
    if block_size == 0 || block_size % 4 != 0 {
        return Err(DirectDsdError::DsfBlockSize);
    }
    if samples % 32 != 0 {
        return Err(DirectDsdError::DsfSampleAlignment);
    }
    let per_channel: u64 = samples / 8;
    let (offset, size) = match find_dsf_data_chunk(b, 28 + fmt_size) {
        Ok(found) => found,
        Err(e) => {
            return Err(e);
        },
    };
    let stored: u64 = match dsf_stored_bytes(per_channel, block_size, channels) {
        Some(stored) => stored,
        None => {
            return Err(DirectDsdError::DsfLengthOverflow);
        },
    };
    if (size as u64) < stored {
        return Err(DirectDsdError::DsfDataTooShort);
    }
    let bit_order = if bits == 1 {
        DirectDsdBitOrder::LsbFirst
    } else {
        DirectDsdBitOrder::MsbFirst
    };
    Ok(
        DsdHead {
            format: DirectDsdFormat {
                bit_rate,
                channels: channels as u16,
                bit_order,
                container: DirectDsdContainer::Dsf,
            },
            layout: DirectDsdLayout::Dsf {
                block_size: block_size as usize,
                data_offset: offset,
                data_size: size,
            },
            total_per_channel: per_channel as usize,
        },
    )
}

proof fn lemma_blocks(per_channel: int, block_size: int, ch: int)
    requires
        0 <= per_channel <= u64::MAX / 8,
        0 < block_size <= u32::MAX,
        0 < ch <= 16,
    ensures
        per_channel <= ((per_channel + block_size - 1) / block_size) * block_size <= per_channel
            + block_size,
        per_channel <= dsf_stored(per_channel, block_size, ch),
        0 <= (per_channel + block_size - 1) / block_size,
        0 <= block_size * ch <= u32::MAX * 16,
{
    reveal(dsf_stored);
    let q = (per_channel + block_size - 1) / block_size;
    lemma_fundamental_div_mod(per_channel + block_size - 1, block_size);
    assert(q * block_size == block_size * q) by (nonlinear_arith);
    assert(q * block_size <= q * block_size * ch) by (nonlinear_arith)
        requires
            0 <= q * block_size,
            1 <= ch,
    ;
    assert(0 <= q) by (nonlinear_arith)
        requires
            q == (per_channel + block_size - 1) / block_size,
            0 < block_size,
            0 <= per_channel,
    ;
    assert(0 <= block_size * ch <= u32::MAX * 16) by (nonlinear_arith)
        requires
            0 < block_size <= u32::MAX,
            0 < ch <= 16,
    ;
}

// ---------------------------------------------------------------------------
// DFF
// ---------------------------------------------------------------------------

/// What the property chunk of a DFF file says.
#[derive(Debug, Clone, Copy, PartialEq, Eq, Structural)]
pub struct DffProperties {
    pub bit_rate: Option<u32>,
    pub channels: Option<u16>,
    pub raw_dsd: Option<bool>,
}

/// The properties found among the subchunks from `at` on, added to `found`; a
/// later subchunk replaces an earlier one.
pub open spec fn dff_properties_from(p: Seq<u8>, at: int, found: DffProperties) -> Result<
    DffProperties,
    DirectDsdError,
>
    decreases p.len() + 2 - at,
{
    if at + 12 > p.len() {
        Ok(found)
    } else {
        let size = be_u64(p, at + 4);
        let start = at + 12;
        if start + size > p.len() || size < 0 {
            Err(DirectDsdError::DffPropertyBounds)
        } else {
            let next = if has_tag(p, at, fs_tag()) && size >= 4 {
                DffProperties { bit_rate: Some(be_u32(p, start) as u32), ..found }
            } else if has_tag(p, at, chnl_tag()) && size >= 2 {
                DffProperties { channels: Some(be_u16(p, start) as u16), ..found }
            } else if has_tag(p, at, compression_tag()) && size >= 4 {
                DffProperties { raw_dsd: Some(has_tag(p, start, dsd_tag())), ..found }
            } else {
                found
            };
            dff_properties_from(p, start + size + size % 2, next)
        }
    }
}

/// What the payload of a property chunk says, or why it is refused.
pub open spec fn dff_properties(p: Seq<u8>) -> Result<DffProperties, DirectDsdError> {
    if p.len() < 4 || !has_tag(p, 0, snd_tag()) {
        Err(DirectDsdError::DffPropertyNotSound)
    } else {
        dff_properties_from(
            p,
            4,
            DffProperties { bit_rate: None, channels: None, raw_dsd: None },
        )
    }
}

/// Reads the payload of a property chunk.
pub fn parse_dff_properties(payload: &[u8]) -> (r: Result<DffProperties, DirectDsdError>)
    ensures
        r == dff_properties(payload@),
{
    let len: usize = payload.len();
    if len < 4 || !tag_at(payload, 0, (0x53, 0x4e, 0x44, 0x20)) {
        return Err(DirectDsdError::DffPropertyNotSound);
    }
    let mut at: usize = 4;
    let mut result = DffProperties { bit_rate: None, channels: None, raw_dsd: None };
    while at <= len && len - at >= 12
        invariant
            at <= len + 1,
            len == payload@.len(),
            dff_properties(payload@) == dff_properties_from(payload@, at as int, result),
        decreases len + 1 - at,
    {
        let size: u64 = be_u64_at(payload, at + 4);
        let start: usize = at + 12;
        if size > (len - start) as u64 {
            return Err(DirectDsdError::DffPropertyBounds);
        }
        let size: usize = size as usize;
        if tag_at(payload, at, (0x46, 0x53, 0x20, 0x20)) && size >= 4 {
            result.bit_rate = Some(be_u32_at(payload, start));
        } else if tag_at(payload, at, (0x43, 0x48, 0x4e, 0x4c)) && size >= 2 {
            result.channels = Some(be_u16_at(payload, start));
        } else if tag_at(payload, at, (0x43, 0x4d, 0x50, 0x52)) && size >= 4 {
            result.raw_dsd = Some(tag_at(payload, start, (0x44, 0x53, 0x44, 0x20)));
        }
        if size % 2 == 1 && start + size == len {
            // The padding byte of the last subchunk may be missing.
            assert(dff_properties_from(payload@, start + size + 1, result) == Ok::<
                DffProperties,
                DirectDsdError,
            >(result));
            return Ok(result);
        }
        at = start + size + size % 2;
    }
    Ok(result)
}

/// What the chunks of a DFF file say.
#[derive(Debug, Clone, Copy)]
pub struct DffScan {
    pub bit_rate: u32,
    pub channels: u16,
    pub raw: bool,
    /// Offset and length of the payload.
    pub data: Option<(usize, usize)>,
}

/// What is known once a property chunk has been read.
pub open spec fn with_properties(known: DffScan, p: DffProperties) -> DffScan {
    DffScan {
        bit_rate: match p.bit_rate {
            Some(v) => v,
            None => known.bit_rate,
        },
        channels: match p.channels {
            Some(v) => v,
            None => known.channels,
        },
        raw: match p.raw_dsd {
            Some(v) => v,
            None => known.raw,
        },
        data: known.data,
    }
}

/// What the chunks from `at` on say, up to the first that holds the payload.
pub open spec fn dff_scan(b: Seq<u8>, at: int, known: DffScan) -> Result<DffScan, DirectDsdError>
    decreases b.len() + 2 - at,
{
    if at + 12 > b.len() {
        Ok(known)
    } else {
        let size = be_u64(b, at + 4);
        let start = at + 12;
        let next = start + size + size % 2;
        if start + size > b.len() || size < 0 {
            Err(DirectDsdError::DffChunkBounds)
        } else if has_tag(b, at, prop_tag()) {
            match dff_properties(b.subrange(start, start + size)) {
                Err(e) => Err(e),
                Ok(p) => dff_scan(b, next, with_properties(known, p)),
            }
        } else if has_tag(b, at, dsd_tag()) {
            Ok(DffScan { data: Some((start as usize, size as usize)), ..known })
        } else {
            dff_scan(b, next, known)
        }
    }
}

/// What a DFF file says of itself, or why it is refused.
pub open spec fn dff_head(b: Seq<u8>) -> Result<DsdHead, DirectDsdError> {
    if b.len() < 16 {
        Err(DirectDsdError::DffHeaderTruncated)
    } else if !has_tag(b, 0, frm8_tag()) || !has_tag(b, 12, dsd_tag()) {
        Err(DirectDsdError::DffFormInvalid)
    } else {
        match dff_scan(b, 16, DffScan { bit_rate: 0, channels: 0, raw: false, data: None }) {
            Err(e) => Err(e),
            Ok(scan) => if scan.bit_rate == 0 {
                Err(DirectDsdError::DffSampleRateMissing)
            } else if scan.channels == 0 || scan.channels > 16 {
                Err(DirectDsdError::DffChannels(scan.channels))
            } else if !scan.raw {
                Err(DirectDsdError::DffCompressed)
            } else {
                match scan.data {
                    None => Err(DirectDsdError::DffDataMissing),
                    Some((offset, size)) => if size == 0 || size as int % (4 * scan.channels) != 0 {
                        Err(DirectDsdError::DffDataAlignment)
                    } else {
                        Ok(
                            DsdHead {
                                format: DirectDsdFormat {
                                    bit_rate: scan.bit_rate,
                                    channels: scan.channels,
                                    bit_order: DirectDsdBitOrder::MsbFirst,
                                    container: DirectDsdContainer::Dff,
                                },
                                layout: DirectDsdLayout::Dff {
                                    data_offset: offset,
                                    data_size: size,
                                },
                                total_per_channel: (size as int / scan.channels as int) as usize,
                            },
                        )
                    },
                }
            },
        }
    }
}

/// Walks the chunks of a DFF file.
fn scan_dff(b: &[u8]) -> (r: Result<DffScan, DirectDsdError>)
    requires
        16 <= b@.len(),
    ensures
        r == dff_scan(b@, 16, DffScan { bit_rate: 0, channels: 0, raw: false, data: None }),
        r matches Ok(scan) ==> (scan.data matches Some((offset, size)) ==> offset + size
            <= b@.len()),
{
    let len: usize = b.len();
    let mut at: usize = 16;
    let mut known = DffScan { bit_rate: 0, channels: 0, raw: false, data: None };
    let ghost whole = dff_scan(b@, 16, known);
    while at <= len && len - at >= 12
        invariant
            at <= len + 1,
            len == b@.len(),
            known.data is None,
            whole == dff_scan(
                b@,
                16,
                DffScan { bit_rate: 0, channels: 0, raw: false, data: None },
            ),
            whole == dff_scan(b@, at as int, known),
        decreases len + 1 - at,
    {
        let size: u64 = be_u64_at(b, at + 4);
        let start: usize = at + 12;
        if size > (len - start) as u64 {
            return Err(DirectDsdError::DffChunkBounds);
        }
        let size: usize = size as usize;
        if tag_at(b, at, (0x50, 0x52, 0x4f, 0x50)) {
            let payload: &[u8] = vstd::slice::slice_subrange(b, start, start + size);
            match parse_dff_properties(payload) {
                Ok(p) => {
                    known = DffScan {
                        bit_rate: match p.bit_rate {
                            Some(v) => v,
                            None => known.bit_rate,
                        },
                        channels: match p.channels {
                            Some(v) => v,
                            None => known.channels,
                        },
                        raw: match p.raw_dsd {
                            Some(v) => v,
                            None => known.raw,
                        },
                        data: None,
                    };
                },
                Err(e) => {
                    return Err(e);
                },
            }
        } else if tag_at(b, at, (0x44, 0x53, 0x44, 0x20)) {
            known.data = Some((start, size));
            return Ok(known);
        }
        if size % 2 == 1 && start + size == len {
            assert(dff_scan(b@, start + size + 1, known) == Ok::<DffScan, DirectDsdError>(known));
            return Ok(known);
        }
        at = start + size + size % 2;
    }
    Ok(known)
}

/// Reads the head of a DFF file.
pub fn open_dff(b: &[u8]) -> (r: Result<DsdHead, DirectDsdError>)
    ensures
        r == dff_head(b@),
        r matches Ok(head) ==> head_fits(head, b@.len() as int),
{
    if b.len() < 16 {
        return Err(DirectDsdError::DffHeaderTruncated);
    }
    if !tag_at(b, 0, (0x46, 0x52, 0x4d, 0x38)) || !tag_at(b, 12, (0x44, 0x53, 0x44, 0x20)) {
        return Err(DirectDsdError::DffFormInvalid);
    }
    let scan = match scan_dff(b) {
        Ok(scan) => scan,
        Err(e) => {
            return Err(e);
        },
    };
    if scan.bit_rate == 0 {
        return Err(DirectDsdError::DffSampleRateMissing);
    }
    if scan.channels == 0 || scan.channels > 16 {
        return Err(DirectDsdError::DffChannels(scan.channels));
    }
    if !scan.raw {
        return Err(DirectDsdError::DffCompressed);
    }
    let (data_offset, data_size) = match scan.data {
        Some(found) => found,
        None => {
            return Err(DirectDsdError::DffDataMissing);
        },
    };
    let channels: usize = scan.channels as usize;
    if data_size == 0 || data_size % (4 * channels) != 0 {
        return Err(DirectDsdError::DffDataAlignment);
    }
    proof {
        lemma_whole_units(data_size as int, channels as int);
    }
    Ok(
        DsdHead {
            format: DirectDsdFormat {
                bit_rate: scan.bit_rate,
                channels: scan.channels,
                bit_order: DirectDsdBitOrder::MsbFirst,
                container: DirectDsdContainer::Dff,
            },
            layout: DirectDsdLayout::Dff { data_offset, data_size },
            total_per_channel: data_size / channels,
        },
    )
}

proof fn lemma_whole_units(size: int, ch: int)
    requires
        0 <= size,
        0 < ch,
        size % (4 * ch) == 0,
    ensures
        (size / ch) % 4 == 0,
        (size / ch) * ch == size,
{
    let units = size / (4 * ch);
    lemma_fundamental_div_mod(size, 4 * ch);
    assert(size == ch * (4 * units)) by (nonlinear_arith)
        requires
            size == (4 * ch) * units,
    ;
    assert(size == (4 * units) * ch + 0) by (nonlinear_arith)
        requires
            size == ch * (4 * units),
    ;
    lemma_fundamental_div_mod_converse(size, ch, 4 * units, 0);
    assert((4 * units) % 4 == 0);
}

// ---------------------------------------------------------------------------
// The reader
// ---------------------------------------------------------------------------

/// Bytes of one read from a DFF payload.
pub open spec fn dff_window(ch: int) -> int {
    (32768int / (4 * ch)) * (4 * ch)
}

/// Whether the payload that a head describes lies within a file of `len` bytes.
pub open spec fn head_fits(head: DsdHead, len: int) -> bool {
    let ch = head.format.channels as int;
    &&& head.format.bit_rate > 0
    &&& 1 <= ch <= 16
    &&& head.total_per_channel % 4 == 0
    &&& match head.layout {
        DirectDsdLayout::Dsf { block_size, data_offset, data_size } => {
            &&& head.format.container == DirectDsdContainer::Dsf
            &&& 0 < block_size <= u32::MAX
            &&& block_size % 4 == 0
            &&& block_size * ch <= usize::MAX
            &&& data_offset + data_size <= len
            &&& dsf_stored(head.total_per_channel as int, block_size as int, ch) <= data_size
            &&& head.total_per_channel <= u64::MAX / 8
        },
        DirectDsdLayout::Dff { data_offset, data_size } => {
            &&& head.format.container == DirectDsdContainer::Dff
            &&& data_size > 0
            &&& data_offset + data_size <= len
            &&& head.total_per_channel * ch == data_size
        },
    }
}

/// Refuses a path that names a disc image as a whole: what plays of one is a
/// track.
pub fn check_native_path(path: &str) -> (r: Result<(), DirectDsdError>)
    ensures
        r == if finishes_with(lowercase(path@), ".iso"@) {
            Err::<(), DirectDsdError>(DirectDsdError::BareDiscImage)
        } else {
            Ok(())
        },
        all_ascii(path@) ==> (r is Err) == finishes_with(ascii_lower_all(path@), ".iso"@),
{
    let lowered: String = to_lowercase(path);
    let chars: Vec<char> = to_chars(lowered.as_str());
    if ends_with(chars.as_slice(), ".iso") {
        Err(DirectDsdError::BareDiscImage)
    } else {
        Ok(())
    }
}

/// Reads the native payload of a DSF or DFF file block by block.
pub struct DirectDsdReader {
    data: Vec<u8>,
    head: DsdHead,
    position: usize,
}

impl DirectDsdReader {
    /// The reader's invariant.
    pub closed spec fn wf(&self) -> bool {
        &&& head_fits(self.head, self.data@.len() as int)
        &&& self.position <= self.head.total_per_channel
        &&& self.position % 4 == 0
    }

    /// Whole content of the file.
    pub closed spec fn file(&self) -> Seq<u8> {
        self.data@
    }

    /// What the file says of itself.
    pub closed spec fn head_spec(&self) -> DsdHead {
        self.head
    }

    /// The stream's format.
    pub open spec fn format_spec(&self) -> DirectDsdFormat {
        self.head_spec().format
    }

    /// Number of channels.
    pub open spec fn ch(&self) -> int {
        self.format_spec().channels as int
    }

    /// Bytes of each channel in the whole stream.
    pub open spec fn total(&self) -> int {
        self.head_spec().total_per_channel as int
    }

    /// Bytes of each channel before the next read.
    pub closed spec fn pos(&self) -> int {
        self.position as int
    }

    /// Byte `i` of channel `c` of the stream.
    pub open spec fn channel_byte(&self, c: int, i: int) -> u8 {
        match self.head_spec().layout {
            DirectDsdLayout::Dsf { block_size, data_offset, .. } => self.file()[data_offset + (i
                / block_size as int) * block_size * self.ch() + c * block_size + i
                % block_size as int],
            DirectDsdLayout::Dff { data_offset, .. } => self.file()[data_offset + i * self.ch()
                + c],
        }
    }

    /// The stream's bytes as the reader hands them out, from byte `from` of each
    /// channel on.
    pub open spec fn payload(&self, from: int, count: int) -> Seq<u8> {
        l4r4(|c: int, i: int| self.channel_byte(c, i), self.ch(), from, count)
    }

    /// Bytes of each channel that the next read hands out.
    pub open spec fn next_count(&self) -> int {
        let left = self.total() - self.pos();
        let most = match self.head_spec().layout {
            DirectDsdLayout::Dsf { block_size, .. } => block_size - self.pos() % block_size as int,
            DirectDsdLayout::Dff { .. } => dff_window(self.ch()) / self.ch(),
        };
        if left <= most {
            left
        } else {
            most
        }
    }

    /// Largest number of bytes that a read hands out.
    pub open spec fn max_len(&self) -> int {
        match self.head_spec().layout {
            DirectDsdLayout::Dsf { block_size, .. } => block_size * self.ch(),
            DirectDsdLayout::Dff { .. } => dff_window(self.ch()),
        }
    }

    /// Whether two readers stand on the same file, wherever they are in it.
    pub open spec fn same_file(&self, other: &DirectDsdReader) -> bool {
        self.file() == other.file() && self.head_spec() == other.head_spec()
    }

    /// What a read does: it moves the reader behind the next block, which `filled`
    /// then holds in front of what `room` held there. At the end of the stream, and
    /// where there is too little room, nothing changes.
    pub open spec fn read_from(
        &self,
        before: &DirectDsdReader,
        room: Seq<u8>,
        filled: Seq<u8>,
        r: Result<Option<usize>, DirectDsdError>,
    ) -> bool {
        let count = before.next_count();
        let len = count * before.ch();
        if before.pos() == before.total() {
            &&& r == Ok::<Option<usize>, DirectDsdError>(None)
            &&& self.pos() == before.pos()
            &&& filled == room
        } else if room.len() < len {
            &&& r == Err::<Option<usize>, DirectDsdError>(DirectDsdError::OutputTooSmall)
            &&& self.pos() == before.pos()
            &&& filled == room
        } else {
            &&& r matches Ok(Some(n)) && n == len
            &&& 0 < len <= before.max_len()
            &&& self.pos() == before.pos() + count
            &&& filled.take(len) == before.payload(before.pos(), count)
            &&& filled.skip(len) == room.skip(len)
        }
    }

    /// A reader has between one and sixteen channels, and hands out at least
    /// one byte of each wherever it is not at the end.
    pub proof fn lemma_channels(&self)
        requires
            self.wf(),
        ensures
            1 <= self.ch() <= 16,
            0 <= self.pos() <= self.total(),
            self.pos() < self.total() ==> 0 < self.next_count(),
            0 < self.max_len() <= usize::MAX,
            self.max_len() <= 16 * u32::MAX,
    {
        lemma_window(self.ch());
        if let DirectDsdLayout::Dsf { block_size, .. } = self.head.layout {
            assert(0 < block_size * self.ch() <= 16 * u32::MAX) by (nonlinear_arith)
                requires
                    0 < block_size <= u32::MAX,
                    0 < self.ch() <= 16,
            ;
        }
    }

    /// The next read is no longer than the longest.
    pub proof fn lemma_next_fits(&self)
        requires
            self.wf(),
        ensures
            self.next_count() * self.ch() <= self.max_len(),
            self.pos() < self.total() ==> 0 < self.next_count() * self.ch(),
    {
        self.lemma_channels();
        lemma_window(self.ch());
        let most = match self.head.layout {
            DirectDsdLayout::Dsf { block_size, .. } => block_size as int,
            DirectDsdLayout::Dff { .. } => dff_window(self.ch()) / self.ch(),
        };
        if let DirectDsdLayout::Dsf { block_size, .. } = self.head.layout {
            lemma_fundamental_div_mod(self.position as int, block_size as int);
        }
        assert(self.next_count() * self.ch() <= most * self.ch()) by (nonlinear_arith)
            requires
                self.next_count() <= most,
                0 < self.ch(),
        ;
        if self.pos() < self.total() {
            assert(0 < self.next_count() * self.ch()) by (nonlinear_arith)
                requires
                    0 < self.next_count(),
                    0 < self.ch(),
            ;
        }
    }

    /// A read hands out whole groups of four bytes of each channel.
    pub proof fn lemma_next_aligned(&self)
        requires
            self.wf(),
        ensures
            self.next_count() % 4 == 0,
            self.total() % 4 == 0,
            self.pos() % 4 == 0,
    {
        lemma_window(self.ch());
        if let DirectDsdLayout::Dsf { block_size, .. } = self.head.layout {
            let bs = block_size as int;
            let pos = self.position as int;
            lemma_fundamental_div_mod(pos, bs);
            let b4 = bs / 4;
            assert(bs * (pos / bs) == 4 * (b4 * (pos / bs))) by (nonlinear_arith)
                requires
                    bs == 4 * b4,
            ;
        }
    }

    /// The reader, moved to another position.
    pub closed spec fn moved(reader: DirectDsdReader, pos: int) -> DirectDsdReader {
        DirectDsdReader { data: reader.data, head: reader.head, position: pos as usize }
    }

    /// A moved reader stands on the same file at the given position, and a
    /// reader that stands there hands out the same bytes.
    pub proof fn lemma_moved(reader: DirectDsdReader, there: DirectDsdReader, pos: int)
        requires
            reader.wf(),
            there.wf(),
            there.same_file(&reader),
            there.pos() == pos,
        ensures
            Self::moved(reader, pos).wf(),
            Self::moved(reader, pos).same_file(&reader),
            Self::moved(reader, pos).pos() == pos,
            there.next_count() == Self::moved(reader, pos).next_count(),
            there.max_len() == Self::moved(reader, pos).max_len(),
            forall|from: int, count: int| #[trigger]
                there.payload(from, count) == Self::moved(reader, pos).payload(from, count),
    {
        let m = Self::moved(reader, pos);
        assert forall|from: int, count: int| #[trigger]
            there.payload(from, count) == m.payload(from, count) by {
            assert(there.payload(from, count) =~= m.payload(from, count));
        }
    }

    /// A reader that is moved to a place in its stream stands there.
    pub proof fn lemma_stands(reader: DirectDsdReader, pos: int)
        requires
            reader.wf(),
            0 <= pos <= reader.total(),
            pos % 4 == 0,
        ensures
            Self::moved(reader, pos).wf(),
            Self::moved(reader, pos).same_file(&reader),
            Self::moved(reader, pos).pos() == pos,
    {
    }

    /// Opens a file from its content: the container is told by the first four
    /// bytes.
    pub fn open_local(data: Vec<u8>) -> (r: Result<Self, DirectDsdError>)
        ensures
            match r {
                Ok(reader) => {
                    &&& reader.wf()
                    &&& reader.file() == data@
                    &&& reader.pos() == 0
                    &&& dsd_head(data@) == Ok::<DsdHead, DirectDsdError>(reader.head_spec())
                },
                Err(e) => dsd_head(data@) == Err::<DsdHead, DirectDsdError>(e),
            },
    {
        if data.len() < 4 {
            return Err(DirectDsdError::HeaderTruncated);
        }
        let opened = if tag_at(data.as_slice(), 0, (0x44, 0x53, 0x44, 0x20)) {
            open_dsf(data.as_slice())
        } else if tag_at(data.as_slice(), 0, (0x46, 0x52, 0x4d, 0x38)) {
            open_dff(data.as_slice())
        } else {
            return Err(DirectDsdError::UnsupportedContainer);
        };
        match opened {
            Ok(head) => Ok(DirectDsdReader { data, head, position: 0 }),
            Err(e) => Err(e),
        }
    }

    /// The stream's format.
    pub fn format(&self) -> (r: DirectDsdFormat)
        ensures
            r == self.format_spec(),
    {
        self.head.format
    }

    /// Largest number of bytes that a read hands out.
    pub fn max_output_len(&self) -> (r: usize)
        requires
            self.wf(),
        ensures
            r == self.max_len(),
    {
        let channels: usize = self.head.format.channels as usize;
        match self.head.layout {
            DirectDsdLayout::Dsf { block_size, .. } => block_size * channels,
            DirectDsdLayout::Dff { .. } => {
                proof {
                    lemma_window(channels as int);
                }
                32768 / (4 * channels) * (4 * channels)
            },
        }
    }

    /// Bytes of each channel in the whole stream.
    pub fn bytes_per_channel(&self) -> (r: usize)
        ensures
            r == self.total(),
    {
        self.head.total_per_channel
    }

    /// Bits of each channel in the whole stream; the length in seconds is this
    /// over the bit rate.
    pub fn duration_bits(&self) -> (r: u64)
        requires
            self.wf(),
        ensures
            r == at_most_u64(8 * self.total()),
    {
        times_8(self.head.total_per_channel)
    }

    /// Moves to the last 32-bit group at or before the requested bit of each
    /// channel, or to the end where that lies beyond it, and returns the bit
    /// that was reached.
    pub fn seek_bits(&mut self, requested_bits: u64) -> (r: u64)
        requires
            old(self).wf(),
        ensures
            final(self).wf(),
            final(self).same_file(old(self)),
            final(self).pos() == seek_target(requested_bits as int, old(self).total()),
            r == at_most_u64(8 * final(self).pos()),
            requested_bits <= 8 * old(self).total() ==> {
                &&& r == 8 * final(self).pos()
                &&& r % 32 == 0
                &&& r <= requested_bits
                &&& requested_bits - r < 32
            },
            requested_bits > 8 * old(self).total() ==> final(self).pos() == old(self).total(),
    {
        proof {
            self.lemma_next_aligned();
            law_seek_lands_on_the_group_of_the_bit(requested_bits as int, self.total());
        }
        let wanted: u64 = requested_bits / 32 * 4;
        let total: usize = self.head.total_per_channel;
        let target: usize = if wanted < total as u64 {
            wanted as usize
        } else {
            total
        };
        self.position = target;
        times_8(target)
    }

    /// Reads the next block into `output`, four bytes of each channel in turn,
    /// and returns its length, or `None` at the end of the stream.
    pub fn read_block(&mut self, output: &mut [u8]) -> (r: Result<Option<usize>, DirectDsdError>)
        requires
            old(self).wf(),
        ensures
            final(self).wf(),
            final(self).same_file(old(self)),
            final(output)@.len() == old(output)@.len(),
            final(self).read_from(old(self), old(output)@, final(output)@, r),
    {
        let total: usize = self.head.total_per_channel;
        let channels: usize = self.head.format.channels as usize;
        if self.position == total {
            return Ok(None);
        }
        let ghost before = *self;
        let ghost f = |c: int, i: int| before.channel_byte(c, i);
        let ghost ch = channels as int;
        let left: usize = total - self.position;
        assert(self.data@.len() == self.data.len());
        match self.head.layout {
            DirectDsdLayout::Dsf { block_size, data_offset, data_size } => {
                let skip: usize = self.position % block_size;
                let index: usize = self.position / block_size;
                let most: usize = block_size - skip;
                let valid: usize = if left <= most {
                    left
                } else {
                    most
                };
                proof {
                    lemma_block_within(
                        total as int,
                        self.position as int,
                        block_size as int,
                        ch,
                        data_size as int,
                    );
                    lemma_fundamental_div_mod(self.position as int, block_size as int);
                    assert(valid * ch <= block_size * ch) by (nonlinear_arith)
                        requires
                            valid <= block_size,
                            0 < ch,
                    ;
                    assert(valid * ch > 0) by (nonlinear_arith)
                        requires
                            valid > 0,
                            0 < ch,
                    ;
                }
                let stored: usize = block_size * channels;
                let start: usize = data_offset + index * stored;
                if output.len() < valid * channels {
                    return Err(DirectDsdError::OutputTooSmall);
                }
                let input: &[u8] = vstd::slice::slice_subrange(
                    self.data.as_slice(),
                    start,
                    start + stored,
                );
                let packed = repack_dsf_l4r4(input, output, channels, block_size, skip, valid);
                assert(packed is Ok);
                self.position = self.position + valid;
                proof {
                    let bs = block_size as int;
                    let g = |c: int, i: int| block_byte(input@, bs, c, i);
                    let got = l4r4(g, ch, skip as int, valid as int);
                    let want = l4r4(f, ch, before.position as int, valid as int);
                    assert forall|n: int| 0 <= n < got.len() implies got[n] == want[n] by {
                        lemma_dsf_byte(before, n, bs, ch, index as int, skip as int, valid as int);
                    }
                    assert(got =~= want);
                }
                Ok(Some(valid * channels))
            },
            DirectDsdLayout::Dff { data_offset, data_size } => {
                proof {
                    lemma_window(ch);
                }
                let window: usize = 32768 / (4 * channels) * (4 * channels);
                let most: usize = window / channels;
                let count: usize = if left <= most {
                    left
                } else {
                    most
                };
                proof {
                    assert(before.position * ch + count * ch <= data_size) by (nonlinear_arith)
                        requires
                            before.position + count <= total,
                            total * ch == data_size,
                            0 < ch,
                    ;
                    assert(count * ch <= most * ch) by (nonlinear_arith)
                        requires
                            count <= most,
                            0 < ch,
                    ;
                    assert(count * ch > 0 && before.position * ch >= 0) by (nonlinear_arith)
                        requires
                            count > 0,
                            before.position >= 0,
                            0 < ch,
                    ;
                }
                let len: usize = count * channels;
                if output.len() < len {
                    return Err(DirectDsdError::OutputTooSmall);
                }
                let start: usize = data_offset + self.position * channels;
                let input: &[u8] = vstd::slice::slice_subrange(
                    self.data.as_slice(),
                    start,
                    start + len,
                );
                proof {
                    lemma_counts(count as int, ch);
                }
                let packed = repack_dff_l4r4(input, output, channels);
                assert(packed is Ok);
                self.position = self.position + count;
                proof {
                    let g = |c: int, i: int| frame_byte(input@, ch, c, i);
                    let got = l4r4(g, ch, 0, count as int);
                    let want = l4r4(f, ch, before.position as int, count as int);
                    assert forall|n: int| 0 <= n < got.len() implies got[n] == want[n] by {
                        lemma_dff_byte(before, n, ch, count as int);
                    }
                    assert(got =~= want);
                }
                Ok(Some(len))
            },
        }
    }
}

/// A number, or the largest `u64` where that is smaller.
pub open spec fn at_most_u64(n: int) -> int {
    if n <= u64::MAX {
        n
    } else {
        u64::MAX as int
    }
}

/// Where a request for a bit leads: the start of its 32-bit group, in bytes of
/// each channel, but no further than the end.
pub open spec fn seek_target(requested_bits: int, total: int) -> int {
    let wanted = requested_bits / 32 * 4;
    if wanted < total {
        wanted
    } else {
        total
    }
}

/// What a DSF or DFF file says of itself, by its first four bytes.
pub open spec fn dsd_head(b: Seq<u8>) -> Result<DsdHead, DirectDsdError> {
    if b.len() < 4 {
        Err(DirectDsdError::HeaderTruncated)
    } else if has_tag(b, 0, dsd_tag()) {
        dsf_head(b)
    } else if has_tag(b, 0, frm8_tag()) {
        dff_head(b)
    } else {
        Err(DirectDsdError::UnsupportedContainer)
    }
}

fn times_8(n: usize) -> (r: u64)
    ensures
        r == at_most_u64(8 * n),
{
    let wide: u64 = n as u64;
    if wide > u64::MAX / 8 {
        u64::MAX
    } else {
        8 * wide
    }
}

proof fn lemma_window(ch: int)
    requires
        1 <= ch <= 16,
    ensures
        0 < dff_window(ch) <= 32768,
        (dff_window(ch) / ch) % 4 == 0,
        0 < dff_window(ch) / ch,
        (dff_window(ch) / ch) * ch == dff_window(ch),
{
    let units = 32768int / (4 * ch);
    assert(units >= 512) by (nonlinear_arith)
        requires
            units == 32768int / (4 * ch),
            1 <= ch <= 16,
    ;
    assert(units * (4 * ch) <= 32768) by (nonlinear_arith)
        requires
            units == 32768int / (4 * ch),
            1 <= ch <= 16,
    ;
    assert(units * (4 * ch) > 0) by (nonlinear_arith)
        requires
            units >= 512,
            1 <= ch,
    ;
    assert(dff_window(ch) == (4 * units) * ch + 0) by (nonlinear_arith)
        requires
            dff_window(ch) == units * (4 * ch),
    ;
    lemma_fundamental_div_mod_converse(dff_window(ch), ch, 4 * units, 0);
}

proof fn lemma_counts(count: int, ch: int)
    requires
        0 < ch,
        0 <= count,
        count % 4 == 0,
    ensures
        (count * ch) / ch == count,
        (count * ch) % (4 * ch) == 0,
{
    lemma_fundamental_div_mod_converse(count * ch, ch, count, 0);
    let k = count / 4;
    assert(count * ch == k * (4 * ch) + 0) by (nonlinear_arith)
        requires
            count == 4 * k,
    ;
    lemma_fundamental_div_mod_converse(count * ch, 4 * ch, k, 0);
}

proof fn lemma_block_within(total: int, pos: int, bs: int, ch: int, data_size: int)
    requires
        0 <= pos < total,
        0 < bs,
        bs % 4 == 0,
        pos % 4 == 0,
        0 < ch,
        dsf_stored(total, bs, ch) <= data_size,
    ensures
        0 <= (pos / bs) * (bs * ch),
        (pos / bs) * (bs * ch) + bs * ch <= data_size,
        0 <= pos % bs < bs,
        (pos % bs) % 4 == 0,
        0 <= pos / bs,
{
    reveal(dsf_stored);
    let i = pos / bs;
    let q = (total + bs - 1) / bs;
    lemma_fundamental_div_mod(pos, bs);
    lemma_fundamental_div_mod(total + bs - 1, bs);
    assert(i + 1 <= q) by (nonlinear_arith)
        requires
            pos == bs * i + pos % bs,
            0 <= pos % bs < bs,
            total + bs - 1 == bs * q + (total + bs - 1) % bs,
            (total + bs - 1) % bs < bs,
            pos < total,
            0 < bs,
    ;
    assert(0 <= i) by (nonlinear_arith)
        requires
            i == pos / bs,
            0 <= pos,
            0 < bs,
    ;
    assert(i * (bs * ch) + bs * ch == (i + 1) * bs * ch) by (nonlinear_arith);
    assert((i + 1) * bs * ch <= q * bs * ch) by (nonlinear_arith)
        requires
            i + 1 <= q,
            0 < bs,
            0 < ch,
    ;
    assert(0 <= i * (bs * ch)) by (nonlinear_arith)
        requires
            0 <= i,
            0 < bs,
            0 < ch,
    ;
    let b4 = bs / 4;
    assert(bs * i == 4 * (b4 * i)) by (nonlinear_arith)
        requires
            bs == 4 * b4,
    ;
}

proof fn lemma_dsf_byte(
    reader: DirectDsdReader,
    n: int,
    bs: int,
    ch: int,
    index: int,
    skip: int,
    valid: int,
)
    requires
        reader.wf(),
        reader.head.layout matches DirectDsdLayout::Dsf { block_size, .. } && block_size == bs,
        ch == reader.ch(),
        0 < bs,
        index == reader.position as int / bs,
        skip == reader.position as int % bs,
        0 < valid,
        valid % 4 == 0,
        skip + valid <= bs,
        0 <= n < valid * ch,
        reader.position < reader.head.total_per_channel,
    ensures
        ({
            let offset = reader.head.layout->Dsf_data_offset as int;
            let start = offset + index * (bs * ch);
            let c = (n / 4) % ch;
            let i = 4 * (n / (4 * ch)) + n % 4;
            let input = reader.data@.subrange(start, start + bs * ch);
            block_byte(input, bs, c, skip + i) == reader.channel_byte(c, reader.position + i)
        }),
{
    let data_size = reader.head.layout->Dsf_data_size as int;
    let offset = reader.head.layout->Dsf_data_offset as int;
    let start = offset + index * (bs * ch);
    let c = (n / 4) % ch;
    let k = n / (4 * ch);
    let i = 4 * k + n % 4;
    lemma_block_within(
        reader.head.total_per_channel as int,
        reader.position as int,
        bs,
        ch,
        data_size,
    );
    lemma_div_denominator(n, 4, ch);
    lemma_fundamental_div_mod(n / 4, ch);
    assert(0 <= c < ch);
    let groups = valid / 4;
    assert(valid * ch == 4 * (groups * ch)) by (nonlinear_arith)
        requires
            valid == 4 * groups,
    ;
    assert(k < groups) by (nonlinear_arith)
        requires
            ch * k + c < groups * ch,
            0 <= c,
            0 < ch,
    ;
    assert(0 <= k) by (nonlinear_arith)
        requires
            k == (n / 4) / ch,
            0 <= n,
            0 < ch,
    ;
    assert(0 <= i < valid);
    lemma_fundamental_div_mod(reader.position as int, bs);
    assert(reader.position + i == index * bs + (skip + i)) by (nonlinear_arith)
        requires
            reader.position == bs * index + skip,
    ;
    lemma_fundamental_div_mod_converse(reader.position + i, bs, index, skip + i);
    assert(index * (bs * ch) == index * bs * ch) by (nonlinear_arith);
    assert(0 <= c * bs && c * bs + bs <= bs * ch) by (nonlinear_arith)
        requires
            0 <= c < ch,
            0 < bs,
    ;
}

proof fn lemma_dff_byte(reader: DirectDsdReader, n: int, ch: int, count: int)
    requires
        reader.wf(),
        reader.head.layout is Dff,
        ch == reader.ch(),
        0 < count,
        count % 4 == 0,
        reader.position + count <= reader.head.total_per_channel,
        0 <= n < count * ch,
    ensures
        ({
            let offset = reader.head.layout->Dff_data_offset as int;
            let start = offset + reader.position * ch;
            let c = (n / 4) % ch;
            let i = 4 * (n / (4 * ch)) + n % 4;
            let input = reader.data@.subrange(start, start + count * ch);
            frame_byte(input, ch, c, i) == reader.channel_byte(c, reader.position + i)
        }),
{
    let offset = reader.head.layout->Dff_data_offset as int;
    let data_size = reader.head.layout->Dff_data_size as int;
    let pos = reader.position as int;
    let total = reader.head.total_per_channel as int;
    let c = (n / 4) % ch;
    let k = n / (4 * ch);
    let i = 4 * k + n % 4;
    lemma_div_denominator(n, 4, ch);
    lemma_fundamental_div_mod(n / 4, ch);
    let groups = count / 4;
    assert(count * ch == 4 * (groups * ch)) by (nonlinear_arith)
        requires
            count == 4 * groups,
    ;
    assert(k < groups) by (nonlinear_arith)
        requires
            ch * k + c < groups * ch,
            0 <= c,
            0 < ch,
    ;
    assert(0 <= k) by (nonlinear_arith)
        requires
            k == (n / 4) / ch,
            0 <= n,
            0 < ch,
    ;
    assert((pos + i) * ch == pos * ch + i * ch) by (nonlinear_arith);
    assert(0 <= i * ch && i * ch + ch <= count * ch) by (nonlinear_arith)
        requires
            0 <= i < count,
            0 < ch,
    ;
    assert(pos * ch + count * ch <= data_size && 0 <= pos * ch) by (nonlinear_arith)
        requires
            0 <= pos,
            pos + count <= total,
            total * ch == data_size,
            0 < ch,
    ;
}

/// A request for a bit leads to the start of the 32-bit group that holds it, and
/// one beyond the end leads to the end.
pub proof fn law_seek_lands_on_the_group_of_the_bit(requested_bits: int, total: int)
    requires
        0 <= requested_bits,
        0 <= total,
        total % 4 == 0,
    ensures
        ({
            let landed = 8 * seek_target(requested_bits, total);
            &&& requested_bits <= 8 * total ==> {
                &&& landed % 32 == 0
                &&& landed <= requested_bits
                &&& requested_bits - landed < 32
            }
            &&& requested_bits > 8 * total ==> landed == 8 * total
        }),
{
}

/// Reading on from a position gives the end of what reading from the start
/// gives: a seek loses and invents nothing.
pub proof fn law_seek_reads_the_exact_tail(reader: DirectDsdReader, from: int)
    requires
        reader.wf(),
        0 <= from <= reader.total(),
        from % 4 == 0,
    ensures
        reader.payload(0, from) + reader.payload(from, reader.total() - from) == reader.payload(
            0,
            reader.total(),
        ),
{
    super::repack::law_l4r4_joins(
        |c: int, i: int| reader.channel_byte(c, i),
        reader.ch(),
        0,
        from,
        reader.total() - from,
    );
}

} // verus!
