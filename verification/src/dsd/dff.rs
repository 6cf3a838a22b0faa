//! Streaming reader of DFF files: big-endian chunks, the bytes of the channels in
//! turn, highest bit first.

use vstd::prelude::*;

use super::DsdRate;
use crate::bytes::{
    be_u16, be_u16_at, be_u32, be_u32_at, be_u64, be_u64_at, has_tag, tag_at,
};
use crate::direct_dsd::reader::{chnl_tag, dsd_tag, frm8_tag, fs_tag, prop_tag, snd_tag};

verus! {

/// Why a file is refused.
#[derive(Debug, Clone, Copy, PartialEq, Eq, Structural)]
pub enum DffError {
    HeaderTruncated,
    Magic,
    /// A property chunk ends too early.
    PropertyTruncated,
    DataMissing,
}

/// What a file says of itself.
#[derive(Debug, Clone, Copy, PartialEq, Eq, Structural)]
pub struct DffInfo {
    pub sample_rate: u32,
    pub channels: u16,
    pub data_offset: usize,
    pub data_size: u64,
}

/// Where the content of the chunk that starts at `at` ends.
pub open spec fn chunk_end(b: Seq<u8>, at: int) -> int {
    at + 12 + be_u64(b, at + 4)
}

/// Where the chunk after one that starts at `at` starts: content of odd length is
/// followed by a byte of padding.
pub open spec fn chunk_after(b: Seq<u8>, at: int) -> int {
    chunk_end(b, at) + be_u64(b, at + 4) % 2
}

/// The rate and the channels that the subchunks from `at` up to `end` tell.
pub open spec fn sound_properties(b: Seq<u8>, at: int, end: int, rate: u32, channels: u16) -> Result<
    (u32, u16),
    DffError,
>
    decreases b.len() - at,
{
    if at + 12 > end || at + 12 > b.len() {
        Ok((rate, channels))
    } else {
        let start = at + 12;
        let next = chunk_after(b, at);
        let is_rate = has_tag(b, at, fs_tag());
        let is_channels = !is_rate && has_tag(b, at, chnl_tag());
        let r = if is_rate {
            be_u32(b, start) as u32
        } else {
            rate
        };
        let c = if is_channels {
            be_u16(b, start) as u16
        } else {
            channels
        };
        if is_rate && start + 4 > b.len() || is_channels && start + 2 > b.len() {
            Err(DffError::PropertyTruncated)
        } else if next < start || next > b.len() {
            Ok((r, c))
        } else {
            sound_properties(b, next, end, r, c)
        }
    }
}

/// What the chunks from `at` on tell, up to the one with the data.
pub open spec fn walk_chunks(b: Seq<u8>, at: int, rate: u32, channels: u16) -> Result<
    DffInfo,
    DffError,
>
    decreases b.len() - at,
{
    if at + 12 > b.len() {
        Err(DffError::DataMissing)
    } else {
        let start = at + 12;
        let next = chunk_after(b, at);
        let is_prop = has_tag(b, at, prop_tag());
        let told = if is_prop && start + 4 > b.len() {
            Err(DffError::PropertyTruncated)
        } else if is_prop && has_tag(b, start, snd_tag()) {
            sound_properties(b, start + 4, chunk_end(b, at), rate, channels)
        } else {
            Ok((rate, channels))
        };
        match told {
            Err(e) => Err(e),
            Ok((r, c)) => if !is_prop && has_tag(b, at, dsd_tag()) {
                Ok(
                    DffInfo {
                        sample_rate: rate,
                        channels,
                        data_offset: start as usize,
                        data_size: be_u64(b, at + 4) as u64,
                    },
                )
            } else if next < start || next > b.len() {
                Err(DffError::DataMissing)
            } else {
                walk_chunks(b, next, r, c)
            },
        }
    }
}

/// What a file says of itself, or why it is refused. Behind the form's tag, its
/// length in eight bytes and its type come the chunks. A file that tells neither
/// rate nor channels is taken for stereo at the lowest rate.
pub open spec fn dff_info(b: Seq<u8>) -> Result<DffInfo, DffError> {
    if b.len() < 16 {
        Err(DffError::HeaderTruncated)
    } else if !has_tag(b, 0, frm8_tag()) || !has_tag(b, 12, dsd_tag()) {
        Err(DffError::Magic)
    } else {
        walk_chunks(b, 16, 2_822_400, 2)
    }
}

/// Where the chunk after one with `size` bytes from `start` on starts; `None` where
/// that is beyond the end.
fn next_chunk(start: usize, size: u64, len: usize) -> (r: Option<usize>)
    requires
        start <= len,
    ensures
        r == if start + size + size % 2 > len {
            None::<usize>
        } else {
            Some((start + size + size % 2) as usize)
        },
{
    let left: u64 = (len - start) as u64;
    if size > left || size % 2 > left - size {
        return None;
    }
    Some(start + size as usize + (size % 2) as usize)
}

fn read_properties(b: &[u8], from: usize, end: u64, rate: u32, channels: u16) -> (r: Result<
    (u32, u16),
    DffError,
>)
    requires
        from <= b@.len(),
    ensures
        r == sound_properties(b@, from as int, end as int, rate, channels),
{
    let len: usize = b.len();
    let mut at: usize = from;
    let mut found_rate: u32 = rate;
    let mut found_channels: u16 = channels;
    while len - at >= 12 && end >= 12 && at as u64 <= end - 12
        invariant
            at <= len,
            len == b@.len(),
            sound_properties(b@, from as int, end as int, rate, channels) == sound_properties(
                b@,
                at as int,
                end as int,
                found_rate,
                found_channels,
            ),
        decreases len - at,
    {
        let size: u64 = be_u64_at(b, at + 4);
        let start: usize = at + 12;
        if tag_at(b, at, (0x46, 0x53, 0x20, 0x20)) {
            if len - start < 4 {
                return Err(DffError::PropertyTruncated);
            }
            found_rate = be_u32_at(b, start);
        } else if tag_at(b, at, (0x43, 0x48, 0x4e, 0x4c)) {
            if len - start < 2 {
                return Err(DffError::PropertyTruncated);
            }
            found_channels = be_u16_at(b, start);
        }
        match next_chunk(start, size, len) {
            Some(next) => {
                at = next;
            },
            None => {
                return Ok((found_rate, found_channels));
            },
        }
    }
    Ok((found_rate, found_channels))
}

/// Reads what a file says of itself.
pub fn read_dff_info(b: &[u8]) -> (r: Result<DffInfo, DffError>)
    ensures
        r == dff_info(b@),
        r matches Ok(info) ==> info.data_offset <= b@.len(),
{
    let len: usize = b.len();
    if len < 16 {
        return Err(DffError::HeaderTruncated);
    }
    if !tag_at(b, 0, (0x46, 0x52, 0x4d, 0x38)) || !tag_at(b, 12, (0x44, 0x53, 0x44, 0x20)) {
        return Err(DffError::Magic);
    }
    let mut at: usize = 16;
    let mut rate: u32 = 2_822_400;
    let mut channels: u16 = 2;
    while len - at >= 12
        invariant
            at <= len,
            len == b@.len(),
            dff_info(b@) == walk_chunks(b@, at as int, rate, channels),
        decreases len - at,
    {
        let size: u64 = be_u64_at(b, at + 4);
        let start: usize = at + 12;
        if tag_at(b, at, (0x50, 0x52, 0x4f, 0x50)) {
            if len - start < 4 {
                return Err(DffError::PropertyTruncated);
            }
            if tag_at(b, start, (0x53, 0x4e, 0x44, 0x20)) {
                let end: u64 = match (start as u64).checked_add(size) {
                    Some(end) => end,
                    None => u64::MAX,
                };
                proof {
                    lemma_end_beyond_file(
                        b@,
                        start + 4,
                        start + size,
                        end as int,
                        rate,
                        channels,
                    );
                }
                match read_properties(b, start + 4, end, rate, channels) {
                    Ok((r, c)) => {
                        rate = r;
                        channels = c;
                    },
                    Err(e) => {
                        return Err(e);
                    },
                }
            }
        } else if tag_at(b, at, (0x44, 0x53, 0x44, 0x20)) {
            return Ok(DffInfo { sample_rate: rate, channels, data_offset: start, data_size: size });
        }
        match next_chunk(start, size, len) {
            Some(next) => {
                at = next;
            },
            None => {
                return Err(DffError::DataMissing);
            },
        }
    }
    Err(DffError::DataMissing)
}

/// Beyond the end of the file it is of no account where a chunk is said to end.
proof fn lemma_end_beyond_file(b: Seq<u8>, at: int, a: int, c: int, rate: u32, channels: u16)
    requires
        a == c || (a >= b.len() && c >= b.len()),
    ensures
        sound_properties(b, at, a, rate, channels) == sound_properties(b, at, c, rate, channels),
    decreases b.len() - at,
{
    if a != c && at + 12 <= b.len() {
        let start = at + 12;
        let next = chunk_after(b, at);
        if start <= next <= b.len() {
            lemma_end_beyond_file(b, next, a, c, be_u32(b, start) as u32, channels);
            lemma_end_beyond_file(b, next, a, c, rate, be_u16(b, start) as u16);
            lemma_end_beyond_file(b, next, a, c, rate, channels);
        }
    }
}

/// The data of a file from byte `pos` of it on, as far as the file holds it.
pub open spec fn data_from(b: Seq<u8>, info: DffInfo, pos: int) -> Seq<u8> {
    let end = if info.data_offset + info.data_size < b.len() {
        info.data_offset + info.data_size
    } else {
        b.len() as int
    };
    if 0 <= pos && info.data_offset + pos < end {
        b.subrange(info.data_offset + pos, end)
    } else {
        Seq::empty()
    }
}

/// A reader of a DFF file.
pub struct DffReader {
    data: Vec<u8>,
    info: DffInfo,
    dsd_rate: DsdRate,
    current: u64,
}

impl DffReader {
    /// The reader's invariant.
    pub closed spec fn wf(&self) -> bool {
        &&& dff_info(self.data@) == Ok::<DffInfo, DffError>(self.info)
        &&& self.info.data_offset <= self.data@.len()
    }

    /// Whole content of the file.
    pub closed spec fn file(&self) -> Seq<u8> {
        self.data@
    }

    /// What the file says of itself.
    pub closed spec fn info_spec(&self) -> DffInfo {
        self.info
    }

    /// Bytes of the data before the next read.
    pub closed spec fn position(&self) -> int {
        self.current as int
    }

    /// What is still to be read.
    pub open spec fn rest(&self) -> Seq<u8> {
        data_from(self.file(), self.info_spec(), self.position())
    }

    /// Opens a file from its content.
    pub fn open(data: Vec<u8>) -> (r: Result<Self, DffError>)
        ensures
            match r {
                Ok(reader) => {
                    &&& reader.wf()
                    &&& reader.file() == data@
                    &&& dff_info(data@) == Ok::<DffInfo, DffError>(reader.info_spec())
                    &&& reader.position() == 0
                    &&& reader.rate_spec().hz() == reader.info_spec().sample_rate
                    &&& reader.rate_spec() is Other <==> !DsdRate::is_named_rate(
                        reader.info_spec().sample_rate,
                    )
                },
                Err(e) => dff_info(data@) == Err::<DffInfo, DffError>(e),
            },
    {
        match read_dff_info(data.as_slice()) {
            Ok(info) => {
                let dsd_rate = DsdRate::from_sample_rate(info.sample_rate);
                Ok(DffReader { data, info, dsd_rate, current: 0 })
            },
            Err(e) => Err(e),
        }
    }

    /// What the file says of itself.
    pub fn info(&self) -> (r: DffInfo)
        ensures
            r == self.info_spec(),
    {
        self.info
    }

    /// The rate of the stream.
    pub closed spec fn rate_spec(&self) -> DsdRate {
        self.dsd_rate
    }

    /// The rate of the stream.
    pub fn dsd_rate(&self) -> (r: DsdRate)
        ensures
            r == self.rate_spec(),
    {
        self.dsd_rate
    }

    /// Bytes of the data before the next read; with the length of the data and
    /// the duration this is the position in seconds.
    pub fn current_data_pos(&self) -> (r: u64)
        ensures
            r == self.position(),
    {
        self.current
    }

    /// Moves to the group of eight bytes that holds a byte of the data.
    pub fn seek_to_data(&mut self, offset: u64)
        requires
            old(self).wf(),
        ensures
            final(self).wf(),
            final(self).file() == old(self).file(),
            final(self).info_spec() == old(self).info_spec(),
            final(self).rate_spec() == old(self).rate_spec(),
            final(self).position() == offset / 8 * 8,
    {
        self.current = offset / 8 * 8;
    }

    /// Reads as much of the data as `out` takes and there is, and returns its
    /// length.
    pub fn read_interleaved_dsd(&mut self, out: &mut [u8]) -> (r: usize)
        requires
            old(self).wf(),
        ensures
            final(self).wf(),
            final(self).file() == old(self).file(),
            final(self).info_spec() == old(self).info_spec(),
            final(self).rate_spec() == old(self).rate_spec(),
            final(out)@.len() == old(out)@.len(),
            ({
                let rest = old(self).rest();
                &&& r == if rest.len() < old(out)@.len() {
                    rest.len()
                } else {
                    old(out)@.len()
                }
                &&& final(out)@.take(r as int) == rest.take(r as int)
                &&& final(out)@.skip(r as int) == old(out)@.skip(r as int)
                &&& final(self).position() == old(self).position() + r
            }),
    {
        let ghost rest = self.rest();
        let room: usize = self.data.len() - self.info.data_offset;
        let end: usize = if self.info.data_size < room as u64 {
            self.info.data_size as usize
        } else {
            room
        };
        if self.current >= end as u64 {
            assert(out@.take(0) =~= rest.take(0));
            return 0;
        }
        let pos: usize = self.current as usize;
        let left: usize = end - pos;
        let count: usize = if left < out.len() {
            left
        } else {
            out.len()
        };
        let start: usize = self.info.data_offset + pos;
        let mut i: usize = 0;
        while i < count
            invariant
                i <= count,
                count <= out.len(),
                count <= rest.len(),
                start + count <= self.data@.len(),
                self.data@.len() == self.data.len(),
                out@.len() == old(out)@.len(),
                forall|k: int| 0 <= k < count ==> rest[k] == self.data@[start + k],
                forall|k: int| 0 <= k < i ==> out@[k] == rest[k],
                forall|k: int| i <= k < out@.len() ==> out@[k] == old(out)@[k],
            decreases count - i,
        {
            out[i] = self.data[start + i];
            i += 1;
        }
        self.current = self.current + count as u64;
        assert(out@.take(count as int) =~= rest.take(count as int));
        assert(out@.skip(count as int) =~= old(out)@.skip(count as int));
        count
    }
}

/// Reads one after the other give the data without a gap or an overlap.
pub proof fn law_dff_reads_join(b: Seq<u8>, info: DffInfo, pos: int, n: int)
    requires
        info.data_offset <= b.len(),
        0 <= pos,
        0 <= n <= data_from(b, info, pos).len(),
    ensures
        data_from(b, info, pos).take(n) + data_from(b, info, pos + n) == data_from(b, info, pos),
{
    assert(data_from(b, info, pos).take(n) + data_from(b, info, pos + n) =~= data_from(
        b,
        info,
        pos,
    ));
}

} // verus!
