//! A whole DSD stream as a WAV file of DoP samples, for chains that take PCM
//! only.

use vstd::prelude::*;

use super::dop_pack::{dop_sample, lemma_marker_shifts, marker_of_frame, DopStreamPacker};
use super::reversed;
use crate::direct_dsd::reader::DirectDsdReader;
use crate::direct_dsd::repack::adapt_dsd_bit_order;
use crate::direct_dsd::{DirectDsdBitOrder, DirectDsdError};

verus! {

/// Bytes of the header of the file.
pub const WAV_HEADER_LEN: usize = 44;

/// The most bytes of samples that the header can tell: its first size counts the
/// rest of the header too.
pub const MAX_WAV_DATA: u32 = 0xffff_ffdb;

/// Why a stream is not turned into DoP.
#[derive(Debug, Clone, Copy, PartialEq, Eq, Structural)]
pub enum DopError {
    /// The source cannot be read.
    Source(DirectDsdError),
    /// Only stereo is turned into DoP; this is the number of channels.
    Channels(u16),
    /// The bit rate is no multiple of 16.
    BitRate(u32),
    /// There is nothing to play.
    NoDuration,
    /// The samples take so many bytes, which exceeds the limit or what a WAV file
    /// holds.
    TooLarge(usize),
}

/// Byte `j` of a number stored from its lowest byte on, in two's complement.
pub open spec fn le_byte(n: int, j: int) -> u8 {
    let shifted = if j == 0 {
        n
    } else if j == 1 {
        n / 0x100
    } else if j == 2 {
        n / 0x1_0000
    } else {
        n / 0x100_0000
    };
    (shifted % 0x100) as u8
}

/// A 32-bit number stored from its lowest byte on.
pub open spec fn le4(n: int) -> Seq<u8> {
    seq![le_byte(n, 0), le_byte(n, 1), le_byte(n, 2), le_byte(n, 3)]
}

/// A 16-bit number stored from its lowest byte on.
pub open spec fn le2(n: int) -> Seq<u8> {
    seq![le_byte(n, 0), le_byte(n, 1)]
}

/// The header of a WAV file of 32-bit PCM samples.
#[verifier::opaque]
pub open spec fn wav_header(rate: int, channels: int, data_size: int) -> Seq<u8> {
    seq![0x52u8, 0x49u8, 0x46u8, 0x46u8] + le4(36 + data_size) + seq![
        0x57u8,
        0x41u8,
        0x56u8,
        0x45u8,
        0x66u8,
        0x6du8,
        0x74u8,
        0x20u8,
    ] + le4(16) + le2(1) + le2(channels) + le4(rate) + le4(rate * channels * 4) + le2(channels * 4)
        + le2(32) + seq![0x64u8, 0x61u8, 0x74u8, 0x61u8] + le4(data_size)
}

fn push_le4(out: &mut Vec<u8>, n: u32)
    ensures
        final(out)@ == old(out)@ + le4(n as int),
{
    let ghost start = out@;
    out.push((n % 0x100) as u8);
    out.push(((n / 0x100) % 0x100) as u8);
    out.push(((n / 0x1_0000) % 0x100) as u8);
    out.push(((n / 0x100_0000) % 0x100) as u8);
    assert(out@ =~= start + le4(n as int));
}

fn push_le2(out: &mut Vec<u8>, n: u16)
    ensures
        final(out)@ == old(out)@ + le2(n as int),
{
    let ghost start = out@;
    out.push((n % 0x100) as u8);
    out.push(((n / 0x100) % 0x100) as u8);
    assert(out@ =~= start + le2(n as int));
}

fn push_tag(out: &mut Vec<u8>, tag: [u8; 4])
    ensures
        final(out)@ == old(out)@ + tag@,
{
    let ghost start = out@;
    out.push(tag[0]);
    out.push(tag[1]);
    out.push(tag[2]);
    out.push(tag[3]);
    assert(out@ =~= start + tag@);
}

/// Writes the header of a WAV file of 32-bit PCM samples.
pub fn write_wav_header(out: &mut Vec<u8>, rate: u32, channels: u16, data_size: u32)
    requires
        data_size <= u32::MAX - 36,
        rate * channels * 4 <= u32::MAX,
        channels * 4 <= u16::MAX,
    ensures
        final(out)@ == old(out)@ + wav_header(rate as int, channels as int, data_size as int),
{
    reveal(wav_header);
    let ghost start = out@;
    push_tag(out, [0x52, 0x49, 0x46, 0x46]);
    push_le4(out, 36 + data_size);
    push_tag(out, [0x57, 0x41, 0x56, 0x45]);
    push_tag(out, [0x66, 0x6d, 0x74, 0x20]);
    push_le4(out, 16);
    push_le2(out, 1);
    push_le2(out, channels);
    push_le4(out, rate);
    proof {
        let r = rate as int;
        let c = channels as int;
        assert(0 <= r * c <= r * c * 4) by (nonlinear_arith)
            requires
                0 <= r,
                0 <= c,
        ;
    }
    push_le4(out, rate * channels as u32 * 4);
    push_le2(out, channels * 4);
    push_le2(out, 32);
    push_tag(out, [0x64, 0x61, 0x74, 0x61]);
    push_le4(out, data_size);
    assert(out@ =~= start + wav_header(rate as int, channels as int, data_size as int));
}

/// Byte `i` of channel `c` of a stream, its first bit highest.
pub open spec fn msb_byte(reader: DirectDsdReader, c: int, i: int) -> u8 {
    if reader.format_spec().bit_order == DirectDsdBitOrder::MsbFirst {
        reader.channel_byte(c, i)
    } else {
        reversed(reader.channel_byte(c, i))
    }
}

/// Sample `n` of a stereo stream as DoP: left and right in turn, each frame two
/// bytes of each channel.
pub open spec fn stereo_sample(reader: DirectDsdReader, n: int) -> int {
    dop_sample(
        marker_of_frame(n / 2),
        msb_byte(reader, n % 2, 2 * (n / 2)),
        msb_byte(reader, n % 2, 2 * (n / 2) + 1),
    )
}

/// The first `samples` DoP samples of a stereo stream, as bytes.
pub open spec fn dop_bytes(reader: DirectDsdReader, samples: int) -> Seq<u8> {
    Seq::new((4 * samples) as nat, |k: int| le_byte(stereo_sample(reader, k / 4), k % 4))
}

/// Bytes that the DoP samples of a stereo stream take: 16 bits of DSD take 32.
pub open spec fn dop_size(reader: DirectDsdReader) -> int {
    4 * reader.total()
}

/// A stereo stream as a WAV file of DoP samples.
pub open spec fn dop_wav(reader: DirectDsdReader) -> Seq<u8> {
    wav_header(reader.format_spec().bit_rate as int / 16, 2, dop_size(reader)) + dop_bytes(
        reader,
        reader.total(),
    )
}

/// Brings a stereo block from groups of four bytes of each channel to frames of
/// two.
fn pair_frames(block: &[u8], len: usize) -> (r: Vec<u8>)
    requires
        len <= block@.len(),
        len % 8 == 0,
    ensures
        r@.len() == len,
        forall|f: int, c: int, j: int|
            #![trigger r@[4 * f + 2 * c + j]]
            0 <= f < len / 4 && 0 <= c < 2 && 0 <= j < 2 ==> r@[4 * f + 2 * c + j] == block@[8 * (f
                / 2) + 4 * c + 2 * (f % 2) + j],
{
    let mut r: Vec<u8> = Vec::new();
    let mut at: usize = 0;
    while at < len
        invariant
            at <= len,
            at % 8 == 0,
            len % 8 == 0,
            len <= block@.len(),
            r@.len() == at,
            forall|f: int, c: int, j: int|
                #![trigger r@[4 * f + 2 * c + j]]
                0 <= f < at as int / 4 && 0 <= c < 2 && 0 <= j < 2 ==> r@[4 * f + 2 * c + j]
                    == block@[8 * (f / 2) + 4 * c + 2 * (f % 2) + j],
        decreases len - at,
    {
        let ghost before = r@;
        assert(at + 8 <= block.len());
        r.push(block[at]);
        r.push(block[at + 1]);
        r.push(block[at + 4]);
        r.push(block[at + 5]);
        r.push(block[at + 2]);
        r.push(block[at + 3]);
        r.push(block[at + 6]);
        r.push(block[at + 7]);
        assert forall|f: int, c: int, j: int|
            #![trigger r@[4 * f + 2 * c + j]]
            0 <= f < (at + 8) / 4 && 0 <= c < 2 && 0 <= j < 2 implies r@[4 * f + 2 * c + j]
            == block@[8 * (f / 2) + 4 * c + 2 * (f % 2) + j] by {
            if f < at as int / 4 {
                assert(r@[4 * f + 2 * c + j] == before[4 * f + 2 * c + j]);
            } else {
                let h = f - at as int / 4;
                assert(h == 0 || h == 1);
                assert(8 * (f / 2) == at);
                assert(f % 2 == h);
            }
        }
        at += 8;
    }
    r
}

/// Where a block of groups of four bytes holds the first of the two bytes of
/// sample `n`.
spec fn sample_place(n: int) -> int {
    8 * (n / 2 / 2) + 4 * (n % 2) + 2 * (n / 2 % 2)
}

/// Packs a stereo block into DoP samples.
fn pack_block(packer: &mut DopStreamPacker, block: &[u8], len: usize) -> (r: Vec<i32>)
    requires
        len <= block@.len(),
        len % 8 == 0,
    ensures
        r@.len() == len / 2,
        final(packer).frame() == (old(packer).frame() + len / 4) % 32,
        forall|n: int|
            0 <= n < r@.len() ==> #[trigger] r@[n] == dop_sample(
                marker_of_frame(old(packer).frame() + n / 2),
                block@[sample_place(n)],
                block@[sample_place(n) + 1],
            ),
{
    let frames: Vec<u8> = pair_frames(block, len);
    let mut samples: Vec<i32> = vec![0i32; len / 2];
    let packed: usize = packer.pack_interleaved(frames.as_slice(), 2, samples.as_mut_slice());
    proof {
        assert(packed == len / 4);
        assert forall|n: int| 0 <= n < samples@.len() implies #[trigger] samples@[n] == dop_sample(
            marker_of_frame(old(packer).frame() + n / 2),
            block@[sample_place(n)],
            block@[sample_place(n) + 1],
        ) by {
            let f = n / 2;
            let c = n % 2;
            assert(n < packed * 2);
            assert(frames@[4 * f + 2 * c + 0] == frames@[2 * n]);
            assert(frames@[4 * f + 2 * c + 1] == frames@[2 * n + 1]);
        }
    }
    samples
}

/// What a block of a stream was packed into are the samples of the stream.
proof fn lemma_block_samples(
    reader: DirectDsdReader,
    raw: Seq<u8>,
    block: Seq<u8>,
    samples: Seq<i32>,
    from: int,
    count: int,
)
    requires
        reader.ch() == 2,
        0 <= from,
        from % 4 == 0,
        count % 4 == 0,
        raw == reader.payload(from, count),
        2 * count <= block.len(),
        block.take(2 * count) == crate::direct_dsd::repack::adapted(
            raw,
            reader.format_spec().bit_order,
            DirectDsdBitOrder::MsbFirst,
        ),
        samples.len() == count,
        forall|n: int|
            0 <= n < samples.len() ==> #[trigger] samples[n] == dop_sample(
                marker_of_frame(from / 2 % 32 + n / 2),
                block[sample_place(n)],
                block[sample_place(n) + 1],
            ),
    ensures
        forall|n: int|
            0 <= n < samples.len() ==> #[trigger] samples[n] == stereo_sample(reader, from + n),
{
    assert forall|n: int| 0 <= n < samples.len() implies #[trigger] samples[n] == stereo_sample(
        reader,
        from + n,
    ) by {
        let f = n / 2;
        let c = n % 2;
        lemma_block_byte(reader, raw, block, from, count, f, c, 0);
        lemma_block_byte(reader, raw, block, from, count, f, c, 1);
        lemma_marker_shifts(from / 2, f);
        assert((from + n) / 2 == from / 2 + f);
        assert((from + n) % 2 == c);
    }
}

fn push_sample(out: &mut Vec<u8>, s: i32)
    ensures
        final(out)@ == old(out)@ + le4(s as int),
{
    let word: u32 = s as u32;
    proof {
        assert(s < 0 ==> s as u32 == s + 0x1_0000_0000) by (bit_vector);
        assert(s >= 0 ==> s as u32 == s) by (bit_vector);
        lemma_le4_wraps(s as int, word as int);
    }
    push_le4(out, word);
}

proof fn lemma_le4_wraps(s: int, word: int)
    requires
        word == s || word == s + 0x1_0000_0000,
    ensures
        le4(word) == le4(s),
{
    if word != s {
        assert(word / 0x100 == s / 0x100 + 0x100_0000);
        assert(word / 0x1_0000 == s / 0x1_0000 + 0x1_0000);
        assert(word / 0x100_0000 == s / 0x100_0000 + 0x100);
        assert(le_byte(word, 0) == le_byte(s, 0));
        assert(le_byte(word, 1) == le_byte(s, 1));
        assert(le_byte(word, 2) == le_byte(s, 2));
        assert(le_byte(word, 3) == le_byte(s, 3));
    }
}

/// Samples as bytes.
pub open spec fn sample_bytes(samples: Seq<i32>) -> Seq<u8> {
    Seq::new((4 * samples.len()) as nat, |k: int| le_byte(samples[k / 4] as int, k % 4))
}

fn push_samples(out: &mut Vec<u8>, samples: &Vec<i32>)
    ensures
        final(out)@ == old(out)@ + sample_bytes(samples@),
{
    let n: usize = samples.len();
    let ghost start = out@;
    let mut i: usize = 0;
    assert(out@ =~= start + sample_bytes(samples@.take(0)));
    while i < n
        invariant
            i <= n,
            n == samples@.len(),
            out@ == start + sample_bytes(samples@.take(i as int)),
        decreases n - i,
    {
        push_sample(out, samples[i]);
        proof {
            lemma_one_sample(samples@, i as int);
            assert(out@ =~= start + (sample_bytes(samples@.take(i as int)) + le4(
                samples@[i as int] as int,
            )));
        }
        i += 1;
    }
    assert(samples@.take(n as int) =~= samples@);
}

proof fn lemma_one_sample(samples: Seq<i32>, i: int)
    requires
        0 <= i < samples.len(),
    ensures
        sample_bytes(samples.take(i)) + le4(samples[i] as int) == sample_bytes(
            samples.take(i + 1),
        ),
{
    let whole = sample_bytes(samples.take(i + 1));
    let parts = sample_bytes(samples.take(i)) + le4(samples[i] as int);
    assert forall|k: int| 0 <= k < whole.len() implies parts[k] == whole[k] by {
        if k >= 4 * i {
            let j = k - 4 * i;
            assert(k / 4 == i && k % 4 == j);
            assert(j == 0 || j == 1 || j == 2 || j == 3);
        } else {
            assert(samples.take(i)[k / 4] == samples.take(i + 1)[k / 4]);
        }
    }
    assert(parts =~= whole);
}

/// The bytes of the next samples of a stream follow those before them.
proof fn lemma_samples_join(reader: DirectDsdReader, samples: Seq<i32>, done: int)
    requires
        0 <= done,
        forall|n: int| 0 <= n < samples.len() ==> samples[n] == stereo_sample(reader, done + n),
    ensures
        dop_bytes(reader, done) + sample_bytes(samples) == dop_bytes(reader, done + samples.len()),
{
    let whole = dop_bytes(reader, done + samples.len());
    let parts = dop_bytes(reader, done) + sample_bytes(samples);
    assert forall|k: int| 0 <= k < whole.len() implies parts[k] == whole[k] by {
        if k >= 4 * done {
            let d = k - 4 * done;
            assert(k / 4 == done + d / 4);
            assert(k % 4 == d % 4);
            assert(samples[d / 4] == stereo_sample(reader, done + d / 4));
        }
    }
    assert(parts =~= whole);
}

/// Reads the next block of a stream and appends its samples; gives the bytes of
/// each channel in it.
fn append_block(
    reader: &mut DirectDsdReader,
    packer: &mut DopStreamPacker,
    block: &mut Vec<u8>,
    out: &mut Vec<u8>,
    Ghost(first): Ghost<DirectDsdReader>,
    Ghost(header): Ghost<Seq<u8>>,
) -> (r: Result<usize, DopError>)
    requires
        first.wf(),
        first.ch() == 2,
        old(reader).wf(),
        old(reader).same_file(&first),
        old(reader).pos() < first.total(),
        old(reader).pos() % 4 == 0,
        first.total() % 4 == 0,
        old(block)@.len() == first.max_len(),
        old(packer).frame() == old(reader).pos() / 2 % 32,
        old(out)@ == header + dop_bytes(first, old(reader).pos()),
    ensures
        r matches Ok(count) && {
            &&& 0 < count
            &&& final(reader).wf()
            &&& final(reader).same_file(&first)
            &&& final(reader).pos() == old(reader).pos() + count
            &&& final(reader).pos() <= first.total()
            &&& final(reader).pos() % 4 == 0
            &&& final(block)@.len() == first.max_len()
            &&& final(packer).frame() == final(reader).pos() / 2 % 32
            &&& final(out)@ == header + dop_bytes(first, final(reader).pos())
        },
{
    let format = reader.format();
    proof {
        reader.lemma_channels();
        reader.lemma_next_fits();
        reader.lemma_next_aligned();
    }
    let ghost count = reader.next_count();
    let ghost from = reader.pos();
    let len: usize = match reader.read_block(block.as_mut_slice()) {
        Ok(Some(len)) => len,
        Ok(None) => {
            return Err(DopError::NoDuration);
        },
        Err(e) => {
            return Err(DopError::Source(e));
        },
    };
    let ghost raw = block@.take(len as int);
    assert(len == 2 * count);
    assert(raw =~= first.payload(from, count));
    adapt_dsd_bit_order(block, len, format.bit_order, DirectDsdBitOrder::MsbFirst);
    let samples: Vec<i32> = pack_block(packer, block.as_slice(), len);
    proof {
        assert((from / 2 + len / 4) % 32 == (from / 2 % 32 + len / 4) % 32);
        assert((from + len / 2) / 2 == from / 2 + len / 4);
        lemma_block_samples(first, raw, block@, samples@, from, count);
    }
    push_samples(out, &samples);
    proof {
        lemma_samples_join(first, samples@, from);
        assert(out@ =~= header + (dop_bytes(first, from) + sample_bytes(samples@)));
    }
    Ok(len / 2)
}

/// Turns a DSD file into a WAV file of DoP samples of at most `max_bytes` bytes,
/// and of no more than the sizes in its header can tell. The markers run through
/// the whole stream.
pub fn convert_dsd_to_dop_ram(source: Vec<u8>, max_bytes: usize) -> (r: Result<Vec<u8>, DopError>)
    ensures
        match crate::direct_dsd::reader::dsd_head(source@) {
            Err(e) => r == Err::<Vec<u8>, DopError>(DopError::Source(e)),
            Ok(head) => {
                let format = head.format;
                let size = 4 * head.total_per_channel;
                if format.channels != 2 {
                    r == Err::<Vec<u8>, DopError>(DopError::Channels(format.channels))
                } else if format.bit_rate % 16 != 0 {
                    r == Err::<Vec<u8>, DopError>(DopError::BitRate(format.bit_rate))
                } else if head.total_per_channel == 0 {
                    r == Err::<Vec<u8>, DopError>(DopError::NoDuration)
                } else if size + WAV_HEADER_LEN > max_bytes || size > MAX_WAV_DATA {
                    r == Err::<Vec<u8>, DopError>(DopError::TooLarge(cut_usize(size)))
                } else {
                    r matches Ok(wav) && exists|reader: DirectDsdReader|
                        {
                            &&& reader.file() == source@
                            &&& reader.head_spec() == head
                            &&& wav@ == #[trigger] dop_wav(reader)
                        }
                }
            },
        },
{
    let mut reader = match DirectDsdReader::open_local(source) {
        Ok(reader) => reader,
        Err(e) => {
            return Err(DopError::Source(e));
        },
    };
    let ghost first = reader;
    let format = reader.format();
    if format.channels != 2 {
        return Err(DopError::Channels(format.channels));
    }
    if format.bit_rate % 16 != 0 {
        return Err(DopError::BitRate(format.bit_rate));
    }
    let total: usize = reader.bytes_per_channel();
    if total == 0 {
        return Err(DopError::NoDuration);
    }
    let data_size: usize = match total.checked_mul(4) {
        Some(n) => n,
        None => usize::MAX,
    };
    if data_size > max_bytes || max_bytes - data_size < WAV_HEADER_LEN || data_size as u64
        > MAX_WAV_DATA as u64 {
        return Err(DopError::TooLarge(data_size));
    }
    let mut out: Vec<u8> = Vec::new();
    write_wav_header(&mut out, format.bit_rate / 16, 2, data_size as u32);
    let ghost header = out@;
    assert(header =~= wav_header(format.bit_rate as int / 16, 2, dop_size(first)));
    let mut packer = DopStreamPacker::new();
    let mut block: Vec<u8> = vec![0u8; reader.max_output_len()];
    let mut done: usize = 0;
    proof {
        first.lemma_next_aligned();
        assert(out@ =~= header + dop_bytes(first, 0));
    }
    while done < total
        invariant
            done <= total,
            total == first.total(),
            first.wf(),
            first.ch() == 2,
            reader.wf(),
            reader.same_file(&first),
            reader.pos() == done,
            done % 4 == 0,
            total % 4 == 0,
            block@.len() == first.max_len(),
            packer.frame() == (done / 2) as int % 32,
            out@ == header + dop_bytes(first, done as int),
        decreases total - done,
    {
        let count: usize = match append_block(
            &mut reader,
            &mut packer,
            &mut block,
            &mut out,
            Ghost(first),
            Ghost(header),
        ) {
            Ok(count) => count,
            Err(e) => {
                return Err(e);
            },
        };
        done += count;
    }
    assert(out@ == dop_wav(first));
    Ok(out)
}

/// A number, or the largest `usize` where that is smaller.
pub open spec fn cut_usize(n: int) -> usize {
    if n > usize::MAX {
        usize::MAX
    } else {
        n as usize
    }
}

/// The bytes of frame `f` of a block, from `from` on, are bytes of the stream.
proof fn lemma_block_byte(
    reader: DirectDsdReader,
    raw: Seq<u8>,
    block: Seq<u8>,
    from: int,
    count: int,
    f: int,
    c: int,
    j: int,
)
    requires
        reader.ch() == 2,
        0 <= from,
        count % 4 == 0,
        0 <= f < count / 2,
        0 <= c < 2,
        0 <= j < 2,
        raw == reader.payload(from, count),
        2 * count <= block.len(),
        block.take(2 * count) == crate::direct_dsd::repack::adapted(
            raw,
            reader.format_spec().bit_order,
            DirectDsdBitOrder::MsbFirst,
        ),
    ensures
        block[8 * (f / 2) + 4 * c + 2 * (f % 2) + j] == msb_byte(reader, c, from + 2 * f + j),
{
    let n = 8 * (f / 2) + 4 * c + 2 * (f % 2) + j;
    assert(0 <= n < 2 * count);
    assert(block[n] == block.take(2 * count)[n]);
    assert(n / 4 == 2 * (f / 2) + c);
    assert((n / 4) % 2 == c);
    assert(n / 8 == f / 2);
    assert(n % 4 == 2 * (f % 2) + j);
    assert(4 * (n / 8) + n % 4 == 2 * f + j);
    assert(count * 2 == 2 * count);
    assert(raw[n] == reader.channel_byte(c, from + 2 * f + j));
}

/// What a DoP file carries can be read off it: of each frame the marker and the
/// two bytes of each channel, in the order of time.
pub proof fn law_dop_file_carries_the_stream(reader: DirectDsdReader, f: int, c: int)
    requires
        0 <= f,
        2 * f + 1 < reader.total(),
        0 <= c < 2,
    ensures
        ({
            let data = dop_bytes(reader, reader.total());
            let at = 8 * f + 4 * c;
            &&& data[at] == 0
            &&& data[at + 1] == msb_byte(reader, c, 2 * f + 1)
            &&& data[at + 2] == msb_byte(reader, c, 2 * f)
            &&& data[at + 3] == marker_of_frame(f)
        }),
{
    let at = 8 * f + 4 * c;
    let n = 2 * f + c;
    let b0 = msb_byte(reader, c, 2 * f);
    let b1 = msb_byte(reader, c, 2 * f + 1);
    assert(at / 4 == n && (at + 1) / 4 == n && (at + 2) / 4 == n && (at + 3) / 4 == n);
    assert(at % 4 == 0 && (at + 1) % 4 == 1 && (at + 2) % 4 == 2 && (at + 3) % 4 == 3);
    assert(n / 2 == f && n % 2 == c);
    super::dop_pack::law_sample_gives_back_marker_and_bytes(marker_of_frame(f), b0, b1);
}

} // verus!
