//! What DSD files, strategies and DoP files come to, told by their bytes.

use vstd::prelude::*;

use super::dff::{chunk_after, chunk_end, dff_info, sound_properties, walk_chunks, DffError, DffInfo};
use super::dop_pack::{marker_of_frame, packed_frames};
use super::dop_wav::{
    dop_bytes, dop_size, dop_wav, law_dop_file_carries_the_stream, msb_byte,
    wav_header,
};
use super::dsf::{dsf_info, group, DsfError, DsfInfo};
use super::{bit, has_dsd_suffix, law_reversed_bits, reversed, DsdPlaybackStrategy, DsdRate};
use crate::direct_dsd::laws::{
    is_dff_file, is_dsf_file, law_big_endian_numbers_are_read, law_little_endian_numbers_are_read,
    marked, stored_le4,
};
use crate::direct_dsd::reader::DirectDsdReader;
use crate::direct_dsd::repack::{block_byte, l4r4, lemma_l4r4_index};
use crate::direct_dsd::DirectDsdBitOrder;
use crate::diretta::DirettaSinkInfo;

verus! {

/// The named rates are those of a compact disc, 64 times and doubled up to three
/// times.
pub proof fn law_named_rates_are_multiples_of_44100()
    ensures
        DsdRate::Dsd64.hz() == 64 * 44_100,
        DsdRate::Dsd128.hz() == 2 * DsdRate::Dsd64.hz(),
        DsdRate::Dsd256.hz() == 2 * DsdRate::Dsd128.hz(),
        DsdRate::Dsd512.hz() == 2 * DsdRate::Dsd256.hz(),
        forall|hz: u32| #[trigger] DsdRate::Other(hz).hz() == hz,
{
}

/// A stream is sent as it is exactly where the target takes DSD of its rate, with
/// the lowest bit first only where the target takes no other order. Else it is
/// turned into PCM of a rate and a depth that the target takes: the highest of four
/// rates below its limit, of which the topmost is for streams of at least four
/// times the lowest rate.
pub proof fn law_strategy_suits_the_target(caps: DirettaSinkInfo, rate: DsdRate)
    ensures
        ({
            let takes = caps.supports_dsd && (caps.dsd_min_sample_rate == 0
                || caps.dsd_min_sample_rate <= rate.hz()) && (caps.dsd_max_sample_rate == 0
                || rate.hz() <= caps.dsd_max_sample_rate);
            match DsdPlaybackStrategy::for_target(Some(caps), rate) {
                DsdPlaybackStrategy::NativeDsd { sample_rate, is_dsd_lsb } => {
                    &&& takes
                    &&& sample_rate == rate.hz()
                    &&& is_dsd_lsb == (caps.supports_dsd_lsb && !caps.supports_dsd_msb)
                },
                DsdPlaybackStrategy::DsdToPcm { pcm_sample_rate, bit_depth } => {
                    let limit = if caps.supports_pcm && caps.pcm_max_sample_rate > 0 {
                        caps.pcm_max_sample_rate
                    } else {
                        192_000
                    };
                    let top = limit >= 352_800 && rate.hz() >= 4 * 2_822_400;
                    &&& !takes
                    &&& pcm_sample_rate == 352_800 <==> top
                    &&& pcm_sample_rate == 176_400 <==> !top && limit >= 176_400
                    &&& pcm_sample_rate == 88_200 <==> 88_200 <= limit < 176_400
                    &&& pcm_sample_rate == 44_100 <==> limit < 88_200
                    &&& caps.supports_pcm && 0 < caps.pcm_max_bits <= 32 ==> bit_depth
                        == caps.pcm_max_bits
                    &&& !(caps.supports_pcm && 0 < caps.pcm_max_bits <= 32) ==> bit_depth == 32
                },
            }
        }),
        DsdPlaybackStrategy::for_target(None, rate) == (DsdPlaybackStrategy::DsdToPcm {
            pcm_sample_rate: 176_400,
            bit_depth: 32,
        }),
{
}

/// A path with one of the two suffixes is that of a DSD file.
pub proof fn law_dsd_files_are_told_by_their_suffix(stem: Seq<char>, other: Seq<char>)
    requires
        other.len() == 4,
        other != ".dsf"@,
        other != ".dff"@,
    ensures
        has_dsd_suffix(stem + ".dsf"@),
        has_dsd_suffix(stem + ".dff"@),
        !has_dsd_suffix(stem + other),
{
    reveal_strlit(".dsf");
    reveal_strlit(".dff");
    let n = stem.len() as int;
    assert((stem + ".dsf"@).subrange(n, n + 4) =~= ".dsf"@);
    assert((stem + ".dff"@).subrange(n, n + 4) =~= ".dff"@);
    assert((stem + other).subrange(n, n + 4) =~= other);
}

/// Packing takes all whole frames that there are, or else as many as there is room
/// for, and never more.
pub proof fn law_packing_takes_all_whole_frames(bytes: int, channels: int, room: int)
    requires
        0 <= bytes,
        0 < channels,
        0 <= room,
    ensures
        ({
            let frames = packed_frames(bytes, channels, room);
            &&& 0 <= frames
            &&& 2 * channels * frames <= bytes
            &&& channels * frames <= room
            &&& bytes < 2 * channels * (frames + 1) || room < channels * (frames + 1)
        }),
{
    let a = bytes / (2 * channels);
    let b = room / channels;
    vstd::arithmetic::div_mod::lemma_fundamental_div_mod(bytes, 2 * channels);
    vstd::arithmetic::div_mod::lemma_fundamental_div_mod(room, channels);
    vstd::arithmetic::div_mod::lemma_mod_bound(bytes, 2 * channels);
    vstd::arithmetic::div_mod::lemma_mod_bound(room, channels);
    vstd::arithmetic::div_mod::lemma_div_pos_is_pos(bytes, 2 * channels);
    vstd::arithmetic::div_mod::lemma_div_pos_is_pos(room, channels);
    let frames = packed_frames(bytes, channels, room);
    assert(2 * channels * frames <= 2 * channels * a) by (nonlinear_arith)
        requires
            frames <= a,
            0 < channels,
    ;
    assert(channels * frames <= channels * b) by (nonlinear_arith)
        requires
            frames <= b,
            0 < channels,
    ;
    assert(2 * channels * (frames + 1) == 2 * channels * frames + 2 * channels) by (nonlinear_arith);
    assert(channels * (frames + 1) == channels * frames + channels) by (nonlinear_arith);
}

/// What a DoP file carries of a channel is its bits in the order of time, highest
/// bit of a byte first, whatever their order in the source.
pub proof fn law_dop_bytes_keep_the_bits(reader: DirectDsdReader, c: int, i: int, k: u8)
    requires
        k < 8,
    ensures
        reader.format_spec().bit_order == DirectDsdBitOrder::MsbFirst ==> bit(
            msb_byte(reader, c, i),
            (7 - k) as u8,
        ) == bit(reader.channel_byte(c, i), (7 - k) as u8),
        reader.format_spec().bit_order == DirectDsdBitOrder::LsbFirst ==> bit(
            msb_byte(reader, c, i),
            (7 - k) as u8,
        ) == bit(reader.channel_byte(c, i), k),
{
    law_reversed_bits(reader.channel_byte(c, i), (7 - k) as u8);
}

/// A DoP file is a WAV file of 32-bit samples in two channels, at a sixteenth of
/// the bit rate, as long as its header says; each frame carries two bytes of each
/// channel under a marker, lowest byte of a sample first.
pub proof fn law_dop_files_are_wav_files(reader: DirectDsdReader, f: int, c: int)
    requires
        reader.wf(),
        4 * reader.total() + 36 <= u32::MAX,
        0 <= f,
        2 * f + 1 < reader.total(),
        0 <= c < 2,
    ensures
        ({
            let wav = dop_wav(reader);
            let rate = reader.format_spec().bit_rate as int / 16;
            let at = 44 + 8 * f + 4 * c;
            &&& wav.len() == 44 + 4 * reader.total()
            &&& marked(wav, 0, 0x52, 0x49, 0x46, 0x46)
            &&& marked(wav, 8, 0x57, 0x41, 0x56, 0x45)
            &&& marked(wav, 12, 0x66, 0x6d, 0x74, 0x20)
            &&& marked(wav, 36, 0x64, 0x61, 0x74, 0x61)
            &&& stored_le4(wav, 4, wav.len() - 8)
            &&& stored_le4(wav, 16, 16)
            &&& wav[20] == 1 && wav[21] == 0
            &&& wav[22] == 2 && wav[23] == 0
            &&& stored_le4(wav, 24, rate)
            &&& stored_le4(wav, 28, 8 * rate)
            &&& wav[32] == 8 && wav[33] == 0
            &&& wav[34] == 32 && wav[35] == 0
            &&& stored_le4(wav, 40, wav.len() - 44)
            &&& wav[at] == 0
            &&& wav[at + 1] == msb_byte(reader, c, 2 * f + 1)
            &&& wav[at + 2] == msb_byte(reader, c, 2 * f)
            &&& wav[at + 3] == marker_of_frame(f)
        }),
{
    let rate = reader.format_spec().bit_rate as int / 16;
    let size = dop_size(reader);
    let head = wav_header(rate, 2, size);
    let wav = dop_wav(reader);
    lemma_wav_header(rate, size);
    law_dop_file_carries_the_stream(reader, f, c);
    let data = dop_bytes(reader, reader.total());
    assert forall|k: int| 0 <= k < 44 implies wav[k] == head[k] by {}
    reveal(stored_le4);
    let at = 8 * f + 4 * c;
    assert(wav[44 + at] == data[at]);
    assert(wav[44 + at + 1] == data[at + 1]);
    assert(wav[44 + at + 2] == data[at + 2]);
    assert(wav[44 + at + 3] == data[at + 3]);
}

proof fn lemma_wav_header(rate: int, size: int)
    requires
        0 <= rate,
        8 * rate <= u32::MAX,
        0 <= size,
        36 + size <= u32::MAX,
    ensures
        ({
            let h = wav_header(rate, 2, size);
            &&& h.len() == 44
            &&& marked(h, 0, 0x52, 0x49, 0x46, 0x46)
            &&& marked(h, 8, 0x57, 0x41, 0x56, 0x45)
            &&& marked(h, 12, 0x66, 0x6d, 0x74, 0x20)
            &&& marked(h, 36, 0x64, 0x61, 0x74, 0x61)
            &&& stored_le4(h, 4, 36 + size)
            &&& stored_le4(h, 16, 16)
            &&& h[20] == 1 && h[21] == 0
            &&& h[22] == 2 && h[23] == 0
            &&& stored_le4(h, 24, rate)
            &&& stored_le4(h, 28, 8 * rate)
            &&& h[32] == 8 && h[33] == 0
            &&& h[34] == 32 && h[35] == 0
            &&& stored_le4(h, 40, size)
        }),
{
    reveal(wav_header);
    reveal(stored_le4);
    assert(rate * 2 * 4 == 8 * rate);
}

/// A stereo DSF file is taken for what it says.
pub proof fn law_dsf_streams_are_read(
    b: Seq<u8>,
    rate: int,
    bits: int,
    samples: int,
    block_size: int,
    size: int,
)
    requires
        is_dsf_file(b, 2, rate, bits, samples, block_size, size),
        0 < block_size,
        block_size % 4 == 0,
        2 * block_size <= u32::MAX,
        0 <= size,
        b.len() <= usize::MAX,
    ensures
        dsf_info(b) == Ok::<DsfInfo, DsfError>(
            DsfInfo {
                sample_rate: rate as u32,
                channels: 2,
                block_size: block_size as u32,
                sample_count: samples as u64,
                data_offset: 92,
                data_size: size as u64,
            },
        ),
{
    law_little_endian_numbers_are_read(b, 32, 52);
    law_little_endian_numbers_are_read(b, 44, 0);
    law_little_endian_numbers_are_read(b, 52, 2);
    law_little_endian_numbers_are_read(b, 56, rate);
    law_little_endian_numbers_are_read(b, 64, samples);
    law_little_endian_numbers_are_read(b, 72, block_size);
    law_little_endian_numbers_are_read(b, 84, 12 + size);
}

/// Of a pair of blocks every eight bytes are four of the left block and four of the
/// right one, in the order of time, with the bits of each byte turned round.
pub proof fn law_pairs_of_blocks_are_grouped(
    b: Seq<u8>,
    at: int,
    block_size: int,
    g: int,
    c: int,
    j: int,
)
    requires
        0 <= at,
        0 < block_size,
        block_size % 4 == 0,
        at + 2 * block_size <= b.len(),
        0 <= g < block_size / 4,
        0 <= c < 2,
        0 <= j < 4,
    ensures
        group(b, at, block_size).len() == 2 * block_size,
        group(b, at, block_size)[8 * g + 4 * c + j] == reversed(
            b[at + c * block_size + 4 * g + j],
        ),
{
    let input = b.subrange(at, at + 2 * block_size);
    let plain = l4r4(|k: int, i: int| block_byte(input, block_size, k, i), 2, 0, block_size);
    lemma_l4r4_index(g, c, j, 2);
    let n = 8 * g + 4 * c + j;
    assert(n == 4 * (g * 2 + c) + j);
    assert(0 <= n < block_size * 2);
    assert(plain[n] == block_byte(input, block_size, c, 4 * g + j));
    assert(0 <= c * block_size <= block_size) by (nonlinear_arith)
        requires
            0 <= c < 2,
            0 < block_size,
    ;
}

/// A DFF file is taken for what it says.
pub proof fn law_dff_streams_are_read(b: Seq<u8>, channels: int, rate: int, names: int, size: int)
    requires
        0 <= channels <= u16::MAX,
        0 <= rate <= u32::MAX,
        0 <= names,
        names % 2 == 0,
        0 <= size,
        is_dff_file(b, channels, rate, names, size),
        b.len() <= usize::MAX,
    ensures
        dff_info(b) == Ok::<DffInfo, DffError>(
            DffInfo {
                sample_rate: rate as u32,
                channels: channels as u16,
                data_offset: (90 + names) as usize,
                data_size: size as u64,
            },
        ),
{
    let prop = 50 + names;
    law_big_endian_numbers_are_read(b, 20, prop);
    law_big_endian_numbers_are_read(b, 82 + names, size);
    lemma_sound(b, channels, rate, names, size);
    assert(chunk_end(b, 16) == 28 + prop);
    assert(chunk_after(b, 16) == 28 + prop);
    assert(walk_chunks(b, 28 + prop, rate as u32, channels as u16) == Ok::<DffInfo, DffError>(
        DffInfo {
            sample_rate: rate as u32,
            channels: channels as u16,
            data_offset: (90 + names) as usize,
            data_size: size as u64,
        },
    ));
    assert(walk_chunks(b, 16, 2_822_400, 2) == walk_chunks(
        b,
        28 + prop,
        rate as u32,
        channels as u16,
    ));
}

proof fn lemma_sound(b: Seq<u8>, channels: int, rate: int, names: int, size: int)
    requires
        0 <= channels <= u16::MAX,
        0 <= rate <= u32::MAX,
        0 <= names,
        names % 2 == 0,
        0 <= size,
        is_dff_file(b, channels, rate, names, size),
    ensures
        sound_properties(b, 32, 78 + names, 2_822_400, 2) == Ok::<(u32, u16), DffError>(
            (rate as u32, channels as u16),
        ),
{
    law_big_endian_numbers_are_read(b, 36, 4);
    law_big_endian_numbers_are_read(b, 44, rate);
    law_big_endian_numbers_are_read(b, 52, 2 + names);
    law_big_endian_numbers_are_read(b, 60, channels);
    law_big_endian_numbers_are_read(b, 66 + names, 4);
    let end = 78 + names;
    let r = rate as u32;
    let c = channels as u16;
    assert(sound_properties(b, end, end, r, c) == Ok::<(u32, u16), DffError>((r, c)));
    assert(sound_properties(b, 62 + names, end, r, c) == sound_properties(b, end, end, r, c));
    assert(sound_properties(b, 48, end, r, 2) == sound_properties(b, 62 + names, end, r, c));
    assert(sound_properties(b, 32, end, 2_822_400, 2) == sound_properties(b, 48, end, r, 2));
}

/// The stream of a DSF file is its pairs of blocks, one after the other, as long as
/// the data goes on and the file holds them whole.
pub proof fn law_the_stream_is_whole_pairs_of_blocks(b: Seq<u8>, info: DsfInfo, pos: int)
    requires
        0 <= pos,
        0 < info.block_size,
    ensures
        pos >= info.data_size ==> super::dsf::groups_from(b, info, pos).len() == 0,
        info.data_offset + pos + 2 * info.block_size > b.len() ==> super::dsf::groups_from(
            b,
            info,
            pos,
        ).len() == 0,
        pos < info.data_size && info.data_offset + pos + 2 * info.block_size <= b.len()
            ==> super::dsf::groups_from(b, info, pos) == group(
            b,
            info.data_offset + pos,
            info.block_size as int,
        ) + super::dsf::groups_from(b, info, pos + 2 * info.block_size),
{
}

/// A read takes as many pairs of blocks as it needs and no more.
pub proof fn law_a_read_takes_the_pairs_it_needs(held: int, count: int, step: int)
    requires
        0 <= held,
        0 <= count,
        0 < step,
    ensures
        ({
            let pairs = super::dsf::pairs_taken(held, count, step);
            &&& pairs >= 0
            &&& held + pairs * step >= count
            &&& pairs > 0 ==> held + (pairs - 1) * step < count
        }),
{
    if count > held {
        let need = count - held;
        let pairs = (need + step - 1) / step;
        vstd::arithmetic::div_mod::lemma_fundamental_div_mod(need + step - 1, step);
        let rest = (need + step - 1) % step;
        assert(0 <= rest < step);
        assert(need + step - 1 == step * pairs + rest);
        assert(pairs * step == step * pairs) by (nonlinear_arith);
        assert((pairs - 1) * step == step * pairs - step) by (nonlinear_arith);
        assert(pairs >= 0) by (nonlinear_arith)
            requires
                step * pairs > -step,
                0 < step,
        ;
    } else {
        assert(0 * step == 0);
    }
}

/// The stream of a DFF file is the bytes of its data, as far as the file holds them,
/// and goes on where it was left.
pub proof fn law_dff_streams_go_on(b: Seq<u8>, info: DffInfo, pos: int)
    requires
        0 <= pos,
    ensures
        ({
            let all = super::dff::data_from(b, info, 0);
            let rest = super::dff::data_from(b, info, pos);
            &&& pos <= all.len() ==> rest == all.skip(pos)
            &&& pos > all.len() ==> rest.len() == 0
            &&& info.data_offset + info.data_size <= b.len() ==> all == b.subrange(
                info.data_offset as int,
                info.data_offset + info.data_size,
            )
            &&& info.data_offset <= b.len() < info.data_offset + info.data_size ==> all == b.skip(
                info.data_offset as int,
            )
        }),
{
    let all = super::dff::data_from(b, info, 0);
    let rest = super::dff::data_from(b, info, pos);
    if pos <= all.len() {
        assert(rest =~= all.skip(pos));
    }
}

/// Numbers are stored from their lowest byte on.
pub proof fn law_numbers_are_stored_lowest_byte_first(n: int)
    requires
        0 <= n < 0x1_0000_0000,
    ensures
        ({
            let four = super::dop_wav::le4(n);
            let two = super::dop_wav::le2(n);
            &&& four.len() == 4 && two.len() == 2
            &&& four[0] + 256 * four[1] + 65_536 * four[2] + 16_777_216 * four[3] == n
            &&& n < 65_536 ==> two[0] + 256 * two[1] == n
        }),
{
}

} // verus!
