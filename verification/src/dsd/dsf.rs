//! Streaming reader of stereo DSF files: little-endian chunks, blocks of each
//! channel in turn, lowest bit first.

use vstd::prelude::*;

use super::DsdRate;
use crate::bytes::{has_tag, le_u32, le_u32_at, le_u64, le_u64_at, tag_at};
use crate::direct_dsd::reader::{data_tag, dsd_tag, fmt_tag};
use crate::direct_dsd::repack::{
    adapt_dsd_bit_order, adapted, block_byte, l4r4, repack_dsf_l4r4,
};
use crate::direct_dsd::DirectDsdBitOrder;

verus! {

/// Why a file is refused.
#[derive(Debug, Clone, Copy, PartialEq, Eq, Structural)]
pub enum DsfError {
    HeaderTruncated,
    Magic,
    FmtTruncated,
    FmtMissing,
    /// Only raw DSD is played; this is the format's number.
    FormatId(u32),
    /// Only stereo is played; this is the number of channels.
    Channels(u16),
    /// The block size is zero, no multiple of four, or too large.
    BlockSize(u32),
    DataHeaderTruncated,
    DataMissing,
}

/// What a file says of itself.
#[derive(Debug, Clone, Copy, PartialEq, Eq, Structural)]
pub struct DsfInfo {
    pub sample_rate: u32,
    pub channels: u16,
    pub block_size: u32,
    pub sample_count: u64,
    pub data_offset: usize,
    pub data_size: u64,
}

/// The length of a chunk's content, from the length of the chunk.
pub open spec fn content_size(size: int) -> int {
    if size < 12 {
        0
    } else {
        size - 12
    }
}

/// The `data` chunk among the chunks from `at` on.
pub open spec fn find_data(b: Seq<u8>, at: int) -> Option<(int, int)>
    decreases b.len() - at,
{
    if at + 12 > b.len() {
        None
    } else if has_tag(b, at, data_tag()) {
        Some((at + 12, content_size(le_u64(b, at + 4))))
    } else {
        let next = at + 12 + content_size(le_u64(b, at + 4));
        if next > b.len() {
            None
        } else {
            find_data(b, next)
        }
    }
}

/// What a file says of itself, or why it is refused. Where the chunk after the
/// format is not the data, the chunks are searched from behind its head on.
pub open spec fn dsf_info(b: Seq<u8>) -> Result<DsfInfo, DsfError> {
    let channels = le_u32(b, 52) % 0x1_0000;
    let block_size = le_u32(b, 72);
    let at = 28 + le_u64(b, 32);
    if b.len() < 28 {
        Err(DsfError::HeaderTruncated)
    } else if !has_tag(b, 0, dsd_tag()) {
        Err(DsfError::Magic)
    } else if b.len() < 80 {
        Err(DsfError::FmtTruncated)
    } else if !has_tag(b, 28, fmt_tag()) {
        Err(DsfError::FmtMissing)
    } else if le_u32(b, 44) != 0 {
        Err(DsfError::FormatId(le_u32(b, 44) as u32))
    } else if channels != 2 {
        Err(DsfError::Channels(channels as u16))
    } else if block_size == 0 || block_size % 4 != 0 {
        Err(DsfError::BlockSize(block_size as u32))
    } else if at + 12 > b.len() {
        Err(DsfError::DataHeaderTruncated)
    } else {
        let data = if has_tag(b, at, data_tag()) {
            Some((at + 12, content_size(le_u64(b, at + 4))))
        } else {
            find_data(b, at + 12)
        };
        match data {
            None => Err(DsfError::DataMissing),
            Some((offset, size)) => if 2 * block_size > u32::MAX {
                Err(DsfError::BlockSize(block_size as u32))
            } else {
                Ok(
                    DsfInfo {
                        sample_rate: le_u32(b, 56) as u32,
                        channels: 2,
                        block_size: block_size as u32,
                        sample_count: le_u64(b, 64) as u64,
                        data_offset: offset as usize,
                        data_size: size as u64,
                    },
                )
            },
        }
    }
}

fn content_of(size: u64) -> (r: u64)
    ensures
        r == content_size(size as int),
{
    if size < 12 {
        0
    } else {
        size - 12
    }
}

fn search_data(b: &[u8], from: usize) -> (r: Option<(usize, u64)>)
    requires
        from <= b@.len(),
    ensures
        match r {
            Some((offset, size)) => find_data(b@, from as int) == Some((offset as int, size as int))
                && offset <= b@.len(),
            None => find_data(b@, from as int) is None,
        },
{
    let len: usize = b.len();
    let mut at: usize = from;
    while len - at >= 12
        invariant
            at <= len,
            len == b@.len(),
            find_data(b@, from as int) == find_data(b@, at as int),
        decreases len - at,
    {
        let size: u64 = content_of(le_u64_at(b, at + 4));
        let start: usize = at + 12;
        if tag_at(b, at, (0x64, 0x61, 0x74, 0x61)) {
            return Some((start, size));
        }
        if size > (len - start) as u64 {
            return None;
        }
        at = start + size as usize;
    }
    None
}

/// Reads what a file says of itself.
pub fn read_dsf_info(b: &[u8]) -> (r: Result<DsfInfo, DsfError>)
    ensures
        r == dsf_info(b@),
        r matches Ok(info) ==> info.data_offset <= b@.len() && 0 < info.block_size && info.block_size
            % 4 == 0 && 2 * info.block_size <= u32::MAX,
{
    let len: usize = b.len();
    if len < 28 {
        return Err(DsfError::HeaderTruncated);
    }
    if !tag_at(b, 0, (0x44, 0x53, 0x44, 0x20)) {
        return Err(DsfError::Magic);
    }
    if len < 80 {
        return Err(DsfError::FmtTruncated);
    }
    if !tag_at(b, 28, (0x66, 0x6d, 0x74, 0x20)) {
        return Err(DsfError::FmtMissing);
    }
    let format_id: u32 = le_u32_at(b, 44);
    if format_id != 0 {
        return Err(DsfError::FormatId(format_id));
    }
    let channels: u16 = (le_u32_at(b, 52) % 0x1_0000) as u16;
    if channels != 2 {
        return Err(DsfError::Channels(channels));
    }
    let block_size: u32 = le_u32_at(b, 72);
    if block_size == 0 || block_size % 4 != 0 {
        return Err(DsfError::BlockSize(block_size));
    }
    let fmt_size: u64 = le_u64_at(b, 32);
    if fmt_size > (len - 28) as u64 || len - 28 - (fmt_size as usize) < 12 {
        return Err(DsfError::DataHeaderTruncated);
    }
    let at: usize = 28 + fmt_size as usize;
    let found: Option<(usize, u64)> = if tag_at(b, at, (0x64, 0x61, 0x74, 0x61)) {
        Some((at + 12, content_of(le_u64_at(b, at + 4))))
    } else {
        search_data(b, at + 12)
    };
    let (data_offset, data_size): (usize, u64) = match found {
        Some(pair) => pair,
        None => {
            return Err(DsfError::DataMissing);
        },
    };
    if block_size > u32::MAX / 2 {
        return Err(DsfError::BlockSize(block_size));
    }
    Ok(
        DsfInfo {
            sample_rate: le_u32_at(b, 56),
            channels,
            block_size,
            sample_count: le_u64_at(b, 64),
            data_offset,
            data_size,
        },
    )
}

/// A pair of blocks, left and right, as groups of four bytes of each channel,
/// highest bit first.
pub open spec fn group(b: Seq<u8>, at: int, block_size: int) -> Seq<u8> {
    let input = b.subrange(at, at + 2 * block_size);
    adapted(
        l4r4(|c: int, i: int| block_byte(input, block_size, c, i), 2, 0, block_size),
        DirectDsdBitOrder::LsbFirst,
        DirectDsdBitOrder::MsbFirst,
    )
}

/// The stream from byte `pos` of the data on: whole pairs of blocks, as long as
/// the data goes on and the file holds them.
pub open spec fn groups_from(b: Seq<u8>, info: DsfInfo, pos: int) -> Seq<u8>
    decreases b.len() - pos,
{
    let step = 2 * info.block_size;
    if pos < 0 || pos >= info.data_size || info.data_offset + pos + step > b.len() || step <= 0 {
        Seq::empty()
    } else {
        group(b, info.data_offset + pos, info.block_size as int) + groups_from(b, info, pos + step)
    }
}

/// Pairs of blocks of `step` bytes that a read of `count` bytes takes from the file
/// where so many bytes are held already.
pub open spec fn pairs_taken(held: int, count: int, step: int) -> int {
    if count <= held {
        0
    } else {
        (count - held + step - 1) / step
    }
}

/// Where a read that finds no further pair of blocks at `pos` ends: what the file
/// still holds is passed over.
pub open spec fn passed_over(b: Seq<u8>, info: DsfInfo, pos: int) -> int {
    if pos < info.data_size && info.data_offset + pos <= b.len() {
        b.len() - info.data_offset
    } else {
        pos
    }
}

/// A reader of a DSF file.
pub struct DsfReader {
    data: Vec<u8>,
    info: DsfInfo,
    dsd_rate: DsdRate,
    current: u64,
    buffer: Vec<u8>,
    taken: usize,
}

impl DsfReader {
    /// The reader's invariant.
    pub closed spec fn wf(&self) -> bool {
        &&& dsf_info(self.data@) == Ok::<DsfInfo, DsfError>(self.info)
        &&& self.info.data_offset <= self.data@.len()
        &&& 0 < self.info.block_size
        &&& self.info.block_size % 4 == 0
        &&& 2 * self.info.block_size <= u32::MAX
        &&& self.taken <= self.buffer@.len()
    }

    /// Whole content of the file.
    pub closed spec fn file(&self) -> Seq<u8> {
        self.data@
    }

    /// What the file says of itself.
    pub closed spec fn info_spec(&self) -> DsfInfo {
        self.info
    }

    /// Bytes of the data that were taken from the file.
    pub closed spec fn position(&self) -> int {
        self.current as int
    }

    /// Bytes that were taken from the file and not read yet.
    pub closed spec fn held(&self) -> int {
        self.buffer@.len() - self.taken
    }

    /// What is still to be read.
    pub closed spec fn rest(&self) -> Seq<u8> {
        self.buffer@.skip(self.taken as int) + groups_from(
            self.data@,
            self.info,
            self.current as int,
        )
    }

    /// Opens a file from its content.
    pub fn open(data: Vec<u8>) -> (r: Result<Self, DsfError>)
        ensures
            match r {
                Ok(reader) => {
                    &&& reader.wf()
                    &&& reader.file() == data@
                    &&& dsf_info(data@) == Ok::<DsfInfo, DsfError>(reader.info_spec())
                    &&& reader.position() == 0
                    &&& reader.held() == 0
                    &&& reader.rest() == groups_from(data@, reader.info_spec(), 0)
                    &&& reader.rate_spec().hz() == reader.info_spec().sample_rate
                    &&& reader.rate_spec() is Other <==> !DsdRate::is_named_rate(
                        reader.info_spec().sample_rate,
                    )
                },
                Err(e) => dsf_info(data@) == Err::<DsfInfo, DsfError>(e),
            },
    {
        match read_dsf_info(data.as_slice()) {
            Ok(info) => {
                let dsd_rate = DsdRate::from_sample_rate(info.sample_rate);
                let reader = DsfReader {
                    data,
                    info,
                    dsd_rate,
                    current: 0,
                    buffer: Vec::new(),
                    taken: 0,
                };
                assert(reader.rest() =~= groups_from(reader.data@, info, 0));
                Ok(reader)
            },
            Err(e) => Err(e),
        }
    }

    /// What the file says of itself.
    pub fn info(&self) -> (r: DsfInfo)
        ensures
            r == self.info_spec(),
    {
        self.info
    }

    /// The rate of the stream.
    pub fn dsd_rate(&self) -> (r: DsdRate)
        ensures
            r == self.rate_spec(),
    {
        self.dsd_rate
    }

    /// The rate of the stream.
    pub closed spec fn rate_spec(&self) -> DsdRate {
        self.dsd_rate
    }

    /// Bytes of the data that were taken from the file; with the length of the
    /// data and the duration this is the position in seconds.
    pub fn current_data_pos(&self) -> (r: u64)
        ensures
            r == self.position(),
    {
        self.current
    }

    /// Moves to the pair of blocks that holds a byte of the data.
    pub fn seek_to_data(&mut self, offset: u64)
        requires
            old(self).wf(),
        ensures
            final(self).wf(),
            final(self).file() == old(self).file(),
            final(self).info_spec() == old(self).info_spec(),
            final(self).rate_spec() == old(self).rate_spec(),
            final(self).held() == 0,
            ({
                let step = 2 * old(self).info_spec().block_size;
                let aligned = offset as int / step * step;
                &&& final(self).position() == aligned
                &&& final(self).rest() == groups_from(
                    old(self).file(),
                    old(self).info_spec(),
                    aligned,
                )
            }),
    {
        let step: u64 = 2 * self.info.block_size as u64;
        proof {
            let o = offset as int;
            let s = step as int;
            assert(0 <= o / s * s <= o) by (nonlinear_arith)
                requires
                    0 <= o,
                    0 < s,
            ;
        }
        self.current = offset / step * step;
        self.buffer = Vec::new();
        self.taken = 0;
        assert(self.rest() =~= groups_from(self.data@, self.info, self.current as int));
    }

    /// Takes the next pair of blocks from the file into the empty buffer; false
    /// where there is none.
    fn refill(&mut self) -> (r: bool)
        requires
            old(self).wf(),
            old(self).taken == old(self).buffer@.len(),
        ensures
            final(self).wf(),
            final(self).data@ == old(self).data@,
            final(self).info == old(self).info,
            final(self).dsd_rate == old(self).dsd_rate,
            final(self).rest() == old(self).rest(),
            r ==> old(self).rest().len() > 0 && final(self).held() == 2 * old(self).info.block_size
                && final(self).position() == old(self).position() + 2 * old(self).info.block_size,
            !r ==> old(self).rest().len() == 0 && final(self).held() == 0
                && final(self).position() == passed_over(
                old(self).data@,
                old(self).info,
                old(self).position(),
            ),
    {
        let ghost before = *self;
        assert(before.rest() =~= groups_from(self.data@, self.info, self.current as int));
        let len: usize = self.data.len();
        let block_size: usize = self.info.block_size as usize;
        let step: usize = 2 * block_size;
        if self.current >= self.info.data_size {
            return false;
        }
        let room: usize = len - self.info.data_offset;
        self.buffer = Vec::new();
        self.taken = 0;
        if self.current > room as u64 {
            assert(self.rest() =~= before.rest());
            return false;
        }
        let left: usize = room - self.current as usize;
        if left < step {
            // What is left of a pair of blocks is passed over.
            self.current = self.current + left as u64;
            assert(self.rest() =~= before.rest());
            return false;
        }
        let start: usize = self.info.data_offset + self.current as usize;
        let input: &[u8] = vstd::slice::slice_subrange(self.data.as_slice(), start, start + step);
        let mut out: Vec<u8> = vec![0u8; step];
        let packed = repack_dsf_l4r4(input, out.as_mut_slice(), 2, block_size, 0, block_size);
        assert(packed is Ok);
        assert(out@.take(step as int) =~= out@);
        adapt_dsd_bit_order(
            &mut out,
            step,
            DirectDsdBitOrder::LsbFirst,
            DirectDsdBitOrder::MsbFirst,
        );
        assert(out@.take(step as int) =~= out@);
        assert(out@ == group(self.data@, start as int, block_size as int));
        self.buffer = out;
        self.current = self.current + step as u64;
        assert(self.rest() =~= before.rest());
        true
    }

    /// Reads as much of the stream as `out` takes and there is, and returns its
    /// length. Every eight bytes are four of the left channel and four of the
    /// right, highest bit first.
    pub fn read_interleaved_dsd(&mut self, out: &mut [u8]) -> (r: usize)
        requires
            old(self).wf(),
        ensures
            final(self).wf(),
            final(self).file() == old(self).file(),
            final(self).info_spec() == old(self).info_spec(),
            final(self).rate_spec() == old(self).rate_spec(),
            final(out)@.len() == old(out)@.len(),
            ({
                let rest = old(self).rest();
                let step = 2 * old(self).info_spec().block_size;
                let pairs = pairs_taken(old(self).held(), r as int, step);
                let reached = old(self).position() + step * pairs;
                &&& r == if rest.len() < old(out)@.len() {
                    rest.len()
                } else {
                    old(out)@.len()
                }
                &&& final(out)@.take(r as int) == rest.take(r as int)
                &&& final(out)@.skip(r as int) == old(out)@.skip(r as int)
                &&& final(self).rest() == rest.skip(r as int)
                &&& final(self).held() == old(self).held() + step * pairs - r
                &&& final(self).position() == if r < old(out)@.len() {
                    passed_over(old(self).file(), old(self).info_spec(), reached)
                } else {
                    reached
                }
            }),
    {
        let want: usize = out.len();
        let ghost rest = self.rest();
        let ghost held = self.held();
        let ghost step = 2 * self.info.block_size;
        let ghost mut pairs: int = 0;
        let mut written: usize = 0;
        assert(rest.skip(0) =~= rest);
        assert(step * pairs == 0);
        while written < want
            invariant_except_break
                self.rest() == rest.skip(written as int),
                self.position() == old(self).position() + step * pairs,
            invariant
                held == old(self).held(),
                step == 2 * old(self).info_spec().block_size,
                0 < step,
                0 <= pairs,
                self.held() == held + step * pairs - written,
                0 <= self.held(),
                pairs == 0 || self.held() < step,
                self.rate_spec() == old(self).rate_spec(),
                written <= want,
                want == out@.len(),
                self.wf(),
                self.file() == old(self).file(),
                self.info_spec() == old(self).info_spec(),
                out@.len() == old(out)@.len(),
                rest == old(self).rest(),
                written <= rest.len(),
                forall|k: int| 0 <= k < written ==> out@[k] == rest[k],
                forall|k: int| written <= k < want ==> out@[k] == old(out)@[k],
            ensures
                self.rest() == rest.skip(written as int),
                written < want ==> written == rest.len(),
                self.position() == if written < want {
                    passed_over(
                        old(self).file(),
                        old(self).info_spec(),
                        old(self).position() + step * pairs,
                    )
                } else {
                    old(self).position() + step * pairs
                },
            decreases want - written,
        {
            if self.taken == self.buffer.len() {
                if !self.refill() {
                    break;
                }
                proof {
                    assert(step * (pairs + 1) == step * pairs + step) by (nonlinear_arith);
                    pairs = pairs + 1;
                }
            }
            let available: usize = self.buffer.len() - self.taken;
            let needed: usize = want - written;
            let count: usize = if available < needed {
                available
            } else {
                needed
            };
            let ghost here = self.rest();
            let ghost start = written;
            let mut i: usize = 0;
            while i < count
                invariant
                    i <= count,
                    start + count <= want,
                    want == out.len(),
                    self.taken + count <= self.buffer.len(),
                    out@.len() == old(out)@.len(),
                    here == self.rest(),
                    forall|k: int| 0 <= k < start ==> out@[k] == rest[k],
                    forall|k: int| 0 <= k < i ==> out@[start + k] == here[k],
                    forall|k: int| start + i <= k < want ==> out@[k] == old(out)@[k],
                    written == start,
                decreases count - i,
            {
                assert(here[i as int] == self.buffer@[self.taken + i]);
                out[written + i] = self.buffer[self.taken + i];
                i += 1;
            }
            self.taken = self.taken + count;
            written += count;
            proof {
                assert(here == rest.skip(start as int));
                assert(self.rest() =~= here.skip(count as int));
                assert(rest.skip(written as int) =~= here.skip(count as int));
                assert forall|k: int| 0 <= k < written implies out@[k] == rest[k] by {
                    if k >= start {
                        assert(out@[start + (k - start)] == here[k - start]);
                    }
                }
            }
        }
        assert(out@.take(written as int) =~= rest.take(written as int));
        assert(out@.skip(written as int) =~= old(out)@.skip(written as int));
        proof {
            lemma_pairs_taken(held, written as int, step, pairs);
        }
        written
    }
}

/// The pairs of blocks that a read takes are as few as hold what it gives.
proof fn lemma_pairs_taken(held: int, count: int, step: int, pairs: int)
    requires
        0 < step,
        0 <= held,
        0 <= pairs,
        0 <= held + step * pairs - count,
        pairs == 0 || held + step * pairs - count < step,
    ensures
        pairs == pairs_taken(held, count, step),
{
    if pairs == 0 {
        assert(step * pairs == 0) by (nonlinear_arith)
            requires
                pairs == 0,
        ;
    } else {
        let spare = held + step * pairs - count;
        assert(step * pairs >= step) by (nonlinear_arith)
            requires
                1 <= pairs,
                0 < step,
        ;
        vstd::arithmetic::div_mod::lemma_fundamental_div_mod_converse(
            count - held + step - 1,
            step,
            pairs,
            step - 1 - spare,
        );
    }
}

/// Reading from the `k`-th pair of blocks on gives the end of what reading from
/// the start gives: a seek to a pair of blocks loses and invents nothing.
pub proof fn law_dsf_seek_reads_the_tail(b: Seq<u8>, info: DsfInfo, from: int, k: int)
    requires
        0 < info.block_size,
        0 <= from,
        0 <= k,
        k * (2 * info.block_size) <= groups_from(b, info, from).len(),
    ensures
        groups_from(b, info, from).skip(k * (2 * info.block_size)) == groups_from(
            b,
            info,
            from + k * (2 * info.block_size),
        ),
    decreases k,
{
    let step = 2 * info.block_size;
    let whole = groups_from(b, info, from);
    if k == 0 {
        assert(k * step == 0) by (nonlinear_arith)
            requires
                k == 0,
        ;
        assert(whole.skip(0) =~= whole);
    } else {
        assert(k * step == step + (k - 1) * step) by (nonlinear_arith);
        assert((k - 1) * step >= 0) by (nonlinear_arith)
            requires
                k >= 1,
                step > 0,
        ;
        let head = group(b, info.data_offset + from, info.block_size as int);
        let tail = groups_from(b, info, from + step);
        assert(whole == head + tail);
        assert(head.len() == step);
        law_dsf_seek_reads_the_tail(b, info, from + step, k - 1);
        assert(whole.skip(k * step) =~= tail.skip((k - 1) * step));
        assert(from + k * step == from + step + (k - 1) * step);
    }
}

} // verus!
