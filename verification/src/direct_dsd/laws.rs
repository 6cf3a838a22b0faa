//! What DSF and DFF files hold, told by their bytes, and what the readers make of
//! them.

use vstd::prelude::*;

use super::reader::{
    dff_properties, dff_properties_from, dff_scan, dsd_head, dsf_data,     dsf_stored, DffProperties, DffScan, DirectDsdLayout, DirectDsdReader, DsdHead,
};
use super::{DirectDsdBitOrder, DirectDsdContainer, DirectDsdError, DirectDsdFormat};
use crate::bytes::{be_u16, be_u32, be_u64, has_tag, le_u32, le_u64};

verus! {

/// Whether a number is stored in the four bytes from `at` on, lowest byte first.
#[verifier::opaque]
pub open spec fn stored_le4(b: Seq<u8>, at: int, n: int) -> bool {
    &&& 0 <= n < 0x1_0000_0000
    &&& b[at] == n % 0x100
    &&& b[at + 1] == n / 0x100 % 0x100
    &&& b[at + 2] == n / 0x1_0000 % 0x100
    &&& b[at + 3] == n / 0x100_0000
}

/// Whether a number is stored in the eight bytes from `at` on, lowest byte first.
#[verifier::opaque]
pub open spec fn stored_le8(b: Seq<u8>, at: int, n: int) -> bool {
    &&& stored_le4(b, at, n % 0x1_0000_0000)
    &&& stored_le4(b, at + 4, n / 0x1_0000_0000)
}

/// Whether a number is stored in the two bytes from `at` on, highest byte first.
#[verifier::opaque]
pub open spec fn stored_be2(b: Seq<u8>, at: int, n: int) -> bool {
    &&& 0 <= n < 0x1_0000
    &&& b[at] == n / 0x100
    &&& b[at + 1] == n % 0x100
}

/// Whether a number is stored in the four bytes from `at` on, highest byte first.
#[verifier::opaque]
pub open spec fn stored_be4(b: Seq<u8>, at: int, n: int) -> bool {
    &&& 0 <= n < 0x1_0000_0000
    &&& b[at] == n / 0x100_0000
    &&& b[at + 1] == n / 0x1_0000 % 0x100
    &&& b[at + 2] == n / 0x100 % 0x100
    &&& b[at + 3] == n % 0x100
}

/// Whether a number is stored in the eight bytes from `at` on, highest byte first.
#[verifier::opaque]
pub open spec fn stored_be8(b: Seq<u8>, at: int, n: int) -> bool {
    &&& stored_be4(b, at, n / 0x1_0000_0000)
    &&& stored_be4(b, at + 4, n % 0x1_0000_0000)
}

/// Numbers that are stored lowest byte first are read as they are.
pub proof fn law_little_endian_numbers_are_read(b: Seq<u8>, at: int, n: int)
    ensures
        stored_le4(b, at, n) ==> le_u32(b, at) == n,
        stored_le8(b, at, n) ==> le_u64(b, at) == n,
{
    lemma_le4(b, at, n);
    lemma_le4(b, at, n % 0x1_0000_0000);
    lemma_le4(b, at + 4, n / 0x1_0000_0000);
    reveal(le_u64);
    reveal(stored_le8);
}

proof fn lemma_le4(b: Seq<u8>, at: int, n: int)
    ensures
        stored_le4(b, at, n) ==> le_u32(b, at) == n,
{
    reveal(le_u32);
    reveal(stored_le4);
}

/// Numbers that are stored highest byte first are read as they are.
pub proof fn law_big_endian_numbers_are_read(b: Seq<u8>, at: int, n: int)
    ensures
        stored_be2(b, at, n) ==> be_u16(b, at) == n,
        stored_be4(b, at, n) ==> be_u32(b, at) == n,
        stored_be8(b, at, n) ==> be_u64(b, at) == n,
{
    lemma_be4(b, at, n);
    lemma_be4(b, at, n / 0x1_0000_0000);
    lemma_be4(b, at + 4, n % 0x1_0000_0000);
    reveal(be_u16);
    reveal(be_u64);
    reveal(stored_be2);
    reveal(stored_be8);
}

proof fn lemma_be4(b: Seq<u8>, at: int, n: int)
    ensures
        stored_be4(b, at, n) ==> be_u32(b, at) == n,
{
    reveal(be_u32);
    reveal(stored_be4);
}

/// Whether four characters stand in the bytes from `at` on.
pub open spec fn marked(b: Seq<u8>, at: int, a: u8, c: u8, d: u8, e: u8) -> bool {
    b[at] == a && b[at + 1] == c && b[at + 2] == d && b[at + 3] == e
}

/// Whether bytes are a DSF file: its head, the `fmt ` chunk with what it says, and
/// directly behind it the `data` chunk with `size` bytes.
pub open spec fn is_dsf_file(
    b: Seq<u8>,
    channels: int,
    rate: int,
    bits: int,
    samples: int,
    block_size: int,
    size: int,
) -> bool {
    &&& b.len() == 92 + size
    &&& marked(b, 0, 0x44, 0x53, 0x44, 0x20)
    &&& stored_le8(b, 4, 28)
    &&& marked(b, 28, 0x66, 0x6d, 0x74, 0x20)
    &&& stored_le8(b, 32, 52)
    &&& stored_le4(b, 44, 0)
    &&& stored_le4(b, 52, channels)
    &&& stored_le4(b, 56, rate)
    &&& stored_le4(b, 60, bits)
    &&& stored_le8(b, 64, samples)
    &&& stored_le4(b, 72, block_size)
    &&& marked(b, 80, 0x64, 0x61, 0x74, 0x61)
    &&& stored_le8(b, 84, 12 + size)
}

/// A DSF file is taken for what it says: its rate, channels, bit order and length,
/// with the stream behind the head of its `data` chunk.
pub proof fn law_dsf_files_are_read(
    b: Seq<u8>,
    channels: int,
    rate: int,
    bits: int,
    samples: int,
    block_size: int,
    blocks: int,
)
    requires
        1 <= channels <= 16,
        0 < rate,
        bits == 1 || bits == 8,
        0 <= samples,
        samples % 32 == 0,
        0 < block_size,
        block_size % 4 == 0,
        block_size * channels <= usize::MAX,
        0 <= blocks,
        blocks == (samples / 8 + block_size - 1) / block_size,
        is_dsf_file(
            b,
            channels,
            rate,
            bits,
            samples,
            block_size,
            blocks * block_size * channels,
        ),
        b.len() <= usize::MAX,
    ensures
        dsd_head(b) == Ok::<DsdHead, DirectDsdError>(
            DsdHead {
                format: DirectDsdFormat {
                    bit_rate: rate as u32,
                    channels: channels as u16,
                    bit_order: if bits == 1 {
                        DirectDsdBitOrder::LsbFirst
                    } else {
                        DirectDsdBitOrder::MsbFirst
                    },
                    container: DirectDsdContainer::Dsf,
                },
                layout: DirectDsdLayout::Dsf {
                    block_size: block_size as usize,
                    data_offset: 92,
                    data_size: (blocks * block_size * channels) as usize,
                },
                total_per_channel: (samples / 8) as usize,
            },
        ),
{
    let size = blocks * block_size * channels;
    law_little_endian_numbers_are_read(b, 4, 28);
    law_little_endian_numbers_are_read(b, 32, 52);
    law_little_endian_numbers_are_read(b, 44, 0);
    law_little_endian_numbers_are_read(b, 52, channels);
    law_little_endian_numbers_are_read(b, 56, rate);
    law_little_endian_numbers_are_read(b, 60, bits);
    law_little_endian_numbers_are_read(b, 64, samples);
    law_little_endian_numbers_are_read(b, 72, block_size);
    law_little_endian_numbers_are_read(b, 84, 12 + size);
    reveal(dsf_stored);
    assert(0 <= size) by (nonlinear_arith)
        requires
            size == blocks * block_size * channels,
            0 <= blocks,
            0 < block_size,
            0 < channels,
    ;
    assert(dsf_data(b, 80) == Ok::<(int, int), DirectDsdError>((92, size)));
    assert(dsf_stored(samples / 8, block_size, channels) == size);
}

/// The bytes of a channel of a DSF file stand in blocks: a block of each channel in
/// turn, each in the order of time. In a DFF file they alternate byte by byte.
pub proof fn law_channels_stand_in_their_file(
    reader: DirectDsdReader,
    block: int,
    within: int,
    c: int,
)
    requires
        reader.wf(),
        0 <= block,
        0 <= within,
        0 <= c < reader.ch(),
    ensures
        match reader.head_spec().layout {
            DirectDsdLayout::Dsf { block_size, data_offset, .. } => within < block_size
                ==> reader.channel_byte(c, block * block_size + within)
                == reader.file()[data_offset + (block * reader.ch() + c) * block_size + within],
            DirectDsdLayout::Dff { data_offset, .. } => reader.channel_byte(c, within)
                == reader.file()[data_offset + reader.ch() * within + c],
        },
{
    let ch = reader.ch();
    match reader.head_spec().layout {
        DirectDsdLayout::Dsf { block_size, data_offset, .. } => {
            let bs = block_size as int;
            if within < bs {
                vstd::arithmetic::div_mod::lemma_fundamental_div_mod_converse(
                    block * bs + within,
                    bs,
                    block,
                    within,
                );
                assert(block * bs * ch + c * bs == (block * ch + c) * bs) by (nonlinear_arith);
            }
        },
        DirectDsdLayout::Dff { data_offset, .. } => {
            assert(within * ch == ch * within) by (nonlinear_arith);
        },
    }
}

/// Whether bytes are a DFF file: its head, a `PROP` chunk with the rate, the
/// channels, of which `names` bytes tell the names, and the word that the stream is
/// not compressed, and behind it the stream.
pub open spec fn is_dff_file(
    b: Seq<u8>,
    channels: int,
    rate: int,
    names: int,
    size: int,
) -> bool {
    let prop = 4 + 16 + 14 + names + 16;
    &&& b.len() == 16 + 12 + prop + 12 + size
    &&& marked(b, 0, 0x46, 0x52, 0x4d, 0x38)
    &&& marked(b, 12, 0x44, 0x53, 0x44, 0x20)
    &&& marked(b, 16, 0x50, 0x52, 0x4f, 0x50)
    &&& stored_be8(b, 20, prop)
    &&& marked(b, 28, 0x53, 0x4e, 0x44, 0x20)
    &&& marked(b, 32, 0x46, 0x53, 0x20, 0x20)
    &&& stored_be8(b, 36, 4)
    &&& stored_be4(b, 44, rate)
    &&& marked(b, 48, 0x43, 0x48, 0x4e, 0x4c)
    &&& stored_be8(b, 52, 2 + names)
    &&& stored_be2(b, 60, channels)
    &&& marked(b, 62 + names, 0x43, 0x4d, 0x50, 0x52)
    &&& stored_be8(b, 66 + names, 4)
    &&& marked(b, 74 + names, 0x44, 0x53, 0x44, 0x20)
    &&& marked(b, 78 + names, 0x44, 0x53, 0x44, 0x20)
    &&& stored_be8(b, 82 + names, size)
}

/// A DFF file is taken for what it says: its rate, channels and length, highest bit
/// first, with the stream behind the head of its `DSD ` chunk.
pub proof fn law_dff_files_are_read(
    b: Seq<u8>,
    channels: int,
    rate: int,
    names: int,
    per_channel: int,
)
    requires
        1 <= channels <= 16,
        0 < rate <= u32::MAX,
        0 <= names,
        names % 2 == 0,
        0 < per_channel,
        per_channel % 4 == 0,
        is_dff_file(b, channels, rate, names, per_channel * channels),
        b.len() <= usize::MAX,
    ensures
        dsd_head(b) matches Ok(head) && {
            &&& head.format == (DirectDsdFormat {
                bit_rate: rate as u32,
                channels: channels as u16,
                bit_order: DirectDsdBitOrder::MsbFirst,
                container: DirectDsdContainer::Dff,
            })
            &&& head.layout == (DirectDsdLayout::Dff {
                data_offset: (90 + names) as usize,
                data_size: (per_channel * channels) as usize,
            })
            &&& head.total_per_channel == per_channel
        },
{
    let size = per_channel * channels;
    let prop = 4 + 16 + 14 + names + 16;
    law_big_endian_numbers_are_read(b, 20, prop);
    law_big_endian_numbers_are_read(b, 82 + names, size);
    let k = per_channel / 4;
    assert(size == k * (4 * channels)) by (nonlinear_arith)
        requires
            size == per_channel * channels,
            per_channel == 4 * k,
    ;
    assert(0 < size) by (nonlinear_arith)
        requires
            size == per_channel * channels,
            0 < per_channel,
            0 < channels,
    ;
    vstd::arithmetic::div_mod::lemma_mod_multiples_basic(k, 4 * channels);
    vstd::arithmetic::div_mod::lemma_div_multiples_vanish(per_channel, channels);
    assert(size == channels * per_channel) by (nonlinear_arith)
        requires
            size == per_channel * channels,
    ;
    lemma_dff_properties(b, channels, rate, names, size);
    let start = DffScan { bit_rate: 0, channels: 0, raw: false, data: None };
    let known = DffScan {
        bit_rate: rate as u32,
        channels: channels as u16,
        raw: true,
        data: None,
    };
    let found = DffScan { data: Some(((90 + names) as usize, size as usize)), ..known };
    assert(dff_scan(b, 28 + prop, known) == Ok::<DffScan, DirectDsdError>(found));
    assert(dff_scan(b, 16, start) == dff_scan(b, 28 + prop, known));
}

proof fn lemma_dff_properties(b: Seq<u8>, channels: int, rate: int, names: int, size: int)
    requires
        1 <= channels <= 16,
        0 < rate,
        0 <= names,
        names % 2 == 0,
        0 <= size,
        is_dff_file(b, channels, rate, names, size),
    ensures
        dff_properties(b.subrange(28, 28 + (50 + names))) == Ok::<DffProperties, DirectDsdError>(
            DffProperties {
                bit_rate: Some(rate as u32),
                channels: Some(channels as u16),
                raw_dsd: Some(true),
            },
        ),
{
    let p = b.subrange(28, 28 + (50 + names));
    lemma_same_numbers(b, p, 28);
    law_big_endian_numbers_are_read(b, 36, 4);
    law_big_endian_numbers_are_read(b, 44, rate);
    law_big_endian_numbers_are_read(b, 52, 2 + names);
    law_big_endian_numbers_are_read(b, 60, channels);
    law_big_endian_numbers_are_read(b, 66 + names, 4);
    let none = DffProperties { bit_rate: None, channels: None, raw_dsd: None };
    let one = DffProperties { bit_rate: Some(rate as u32), ..none };
    let two = DffProperties { channels: Some(channels as u16), ..one };
    let three = DffProperties { raw_dsd: Some(true), ..two };
    assert(dff_properties_from(p, 50 + names, three) == Ok::<DffProperties, DirectDsdError>(three));
    assert(dff_properties_from(p, 34 + names, two) == dff_properties_from(p, 50 + names, three)) by {
        assert(be_u64(p, 38 + names) == 4);
        assert(has_tag(p, 34 + names, super::reader::compression_tag()));
        assert(has_tag(p, 46 + names, super::reader::dsd_tag()));
    }
    assert(dff_properties_from(p, 20, one) == dff_properties_from(p, 34 + names, two)) by {
        assert(be_u64(p, 24) == 2 + names);
        assert(be_u16(p, 32) == channels);
        assert(has_tag(p, 20, super::reader::chnl_tag()));
    }
    assert(dff_properties_from(p, 4, none) == dff_properties_from(p, 20, one)) by {
        assert(be_u64(p, 8) == 4);
        assert(be_u32(p, 16) == rate);
        assert(has_tag(p, 4, super::reader::fs_tag()));
    }
}

/// Numbers are the same in a part of a file as in the file.
proof fn lemma_same_numbers(b: Seq<u8>, p: Seq<u8>, from: int)
    requires
        0 <= from,
        from + p.len() <= b.len(),
        p == b.subrange(from, from + p.len()),
    ensures
        forall|at: int|
            0 <= at && at + 8 <= p.len() ==> #[trigger] be_u64(p, at) == be_u64(b, from + at),
        forall|at: int|
            0 <= at && at + 4 <= p.len() ==> #[trigger] be_u32(p, at) == be_u32(b, from + at),
        forall|at: int|
            0 <= at && at + 2 <= p.len() ==> #[trigger] be_u16(p, at) == be_u16(b, from + at),
{
    reveal(be_u16);
    reveal(be_u32);
    reveal(be_u64);
}

/// A DSF file that says what cannot be is refused for it: no channels or more than
/// sixteen, no rate, samples that are neither of one bit nor of eight, blocks that are
/// not whole groups, a stream that ends within one, or more samples than data.
pub proof fn law_impossible_dsf_files_are_refused(
    b: Seq<u8>,
    channels: int,
    rate: int,
    bits: int,
    samples: int,
    block_size: int,
    size: int,
)
    requires
        0 <= size,
        is_dsf_file(b, channels, rate, bits, samples, block_size, size),
        b.len() <= usize::MAX,
    ensures
        ({
            let head = dsd_head(b);
            let some = 1 <= channels <= 16;
            let fast = some && 0 < rate;
            let plain = fast && (bits == 1 || bits == 8);
            let whole = plain && 0 < block_size && block_size % 4 == 0;
            &&& channels == 0 || channels >= 17 ==> head == Err::<DsdHead, DirectDsdError>(
                DirectDsdError::DsfChannels(channels as u32),
            )
            &&& some && rate == 0 ==> head == Err::<DsdHead, DirectDsdError>(
                DirectDsdError::DsfBitRate,
            )
            &&& fast && bits != 1 && bits != 8 ==> head == Err::<DsdHead, DirectDsdError>(
                DirectDsdError::DsfBitsPerSample(bits as u32),
            )
            &&& plain && (block_size == 0 || block_size % 4 != 0) ==> head == Err::<
                DsdHead,
                DirectDsdError,
            >(DirectDsdError::DsfBlockSize)
            &&& whole && samples % 32 != 0 ==> head == Err::<DsdHead, DirectDsdError>(
                DirectDsdError::DsfSampleAlignment,
            )
        }),
{
    law_little_endian_numbers_are_read(b, 4, 28);
    law_little_endian_numbers_are_read(b, 32, 52);
    law_little_endian_numbers_are_read(b, 44, 0);
    law_little_endian_numbers_are_read(b, 52, channels);
    law_little_endian_numbers_are_read(b, 56, rate);
    law_little_endian_numbers_are_read(b, 60, bits);
    law_little_endian_numbers_are_read(b, 64, samples);
    law_little_endian_numbers_are_read(b, 72, block_size);
    reveal(stored_le4);
    reveal(stored_le8);
}

/// What begins with neither mark is no DSD file, nor is what ends within its mark. A
/// DFF file has sixteen bytes at least, says that it holds DSD, and has to say its
/// rate.
pub proof fn law_other_files_are_refused(b: Seq<u8>)
    ensures
        b.len() <= 3 ==> dsd_head(b) == Err::<DsdHead, DirectDsdError>(
            DirectDsdError::HeaderTruncated,
        ),
        b.len() >= 4 && !marked(b, 0, 0x44, 0x53, 0x44, 0x20) && !marked(b, 0, 0x46, 0x52, 0x4d, 0x38)
            ==> dsd_head(b) == Err::<DsdHead, DirectDsdError>(DirectDsdError::UnsupportedContainer),
        4 <= b.len() <= 27 && marked(b, 0, 0x44, 0x53, 0x44, 0x20) ==> dsd_head(b) == Err::<
            DsdHead,
            DirectDsdError,
        >(DirectDsdError::DsfHeaderTruncated),
        4 <= b.len() <= 15 && marked(b, 0, 0x46, 0x52, 0x4d, 0x38) ==> dsd_head(b) == Err::<
            DsdHead,
            DirectDsdError,
        >(DirectDsdError::DffHeaderTruncated),
        b.len() >= 16 && marked(b, 0, 0x46, 0x52, 0x4d, 0x38) && !marked(
            b,
            12,
            0x44,
            0x53,
            0x44,
            0x20,
        ) ==> dsd_head(b) == Err::<DsdHead, DirectDsdError>(DirectDsdError::DffFormInvalid),
        16 <= b.len() <= 27 && marked(b, 0, 0x46, 0x52, 0x4d, 0x38) && marked(
            b,
            12,
            0x44,
            0x53,
            0x44,
            0x20,
        ) ==> dsd_head(b) == Err::<DsdHead, DirectDsdError>(DirectDsdError::DffSampleRateMissing),
{
}

/// A DFF file that does not say that its stream is not compressed is refused, as is
/// one that says that it is.
pub proof fn law_dff_files_say_that_they_are_not_compressed(
    b: Seq<u8>,
    prop: int,
    found: DffProperties,
)
    requires
        marked(b, 0, 0x46, 0x52, 0x4d, 0x38),
        marked(b, 12, 0x44, 0x53, 0x44, 0x20),
        marked(b, 16, 0x50, 0x52, 0x4f, 0x50),
        0 <= prop,
        prop % 2 == 0,
        stored_be8(b, 20, prop),
        b.len() >= 28 + prop,
        b.len() <= 28 + prop + 11,
        dff_properties(b.subrange(28, 28 + prop)) == Ok::<DffProperties, DirectDsdError>(found),
        found.bit_rate matches Some(rate) && rate > 0,
        found.channels matches Some(channels) && 1 <= channels <= 16,
    ensures
        found.raw_dsd != Some(true) ==> dsd_head(b) == Err::<DsdHead, DirectDsdError>(
            DirectDsdError::DffCompressed,
        ),
        found.raw_dsd == Some(true) ==> dsd_head(b) == Err::<DsdHead, DirectDsdError>(
            DirectDsdError::DffDataMissing,
        ),
{
    law_big_endian_numbers_are_read(b, 20, prop);
    let start = DffScan { bit_rate: 0, channels: 0, raw: false, data: None };
    let known = DffScan {
        bit_rate: found.bit_rate->0,
        channels: found.channels->0,
        raw: found.raw_dsd == Some(true),
        data: None,
    };
    assert(dff_scan(b, 28 + prop, known) == Ok::<DffScan, DirectDsdError>(known));
    assert(dff_scan(b, 16, start) == dff_scan(b, 28 + prop, known));
}

} // verus!
