//! Cue sheets: parsing, the audio files they refer to, and the virtual paths of
//! their tracks.

pub mod laws;
pub mod matcher;
pub mod parser;

use vstd::prelude::*;

use crate::number::{
    decimal, is_real, parse_u16, push_decimal, push_three_digits, reads_as_real, three_digits,
    unsigned_value,
};
use crate::text::{
    all_ascii, ascii_lower_all, ends_with, finishes_with, lowercase, split, split_at_char, texts,
    to_chars, to_lowercase, to_text,
};

verus! {

/// What a virtual path names: a piece of a file that holds a whole disc.
pub struct CueVirtualInfo {
    /// The file.
    pub physical_path: String,
    /// Seconds from the start of the file, as written.
    pub start_time: String,
    /// Seconds that the track lasts, as written; zero for the rest of the file.
    pub duration: String,
    pub track_num: u16,
}

/// The four parts of a virtual path: file, start, duration and track number.
pub open spec fn virtual_parts(path: Seq<char>) -> Option<(Seq<char>, Seq<char>, Seq<char>, int)> {
    let parts = split(path, '|');
    if parts.len() == 4 && is_real(parts[1]) && is_real(parts[2]) && unsigned_value(
        parts[3],
        u16::MAX as int,
    ) is Some {
        Some((parts[0], parts[1], parts[2], unsigned_value(parts[3], u16::MAX as int)->0))
    } else {
        None
    }
}

/// Reads a virtual path, `file|start|duration|track`. Start and duration have to
/// read as numbers; they are given as written.
pub fn parse_cue_virtual_path(virtual_path: &str) -> (r: Option<CueVirtualInfo>)
    ensures
        match r {
            Some(info) => virtual_parts(virtual_path@) == Some(
                (
                    info.physical_path@,
                    info.start_time@,
                    info.duration@,
                    info.track_num as int,
                ),
            ),
            None => virtual_parts(virtual_path@) is None,
        },
{
    let chars: Vec<char> = to_chars(virtual_path);
    let parts: Vec<Vec<char>> = split_at_char(chars.as_slice(), '|');
    let ghost all = texts(parts@);
    if parts.len() != 4 {
        assert(all.len() != 4);
        return None;
    }
    assert(all[0] == parts@[0]@ && all[1] == parts@[1]@ && all[2] == parts@[2]@ && all[3]
        == parts@[3]@);
    if !reads_as_real(parts[1].as_slice()) || !reads_as_real(parts[2].as_slice()) {
        return None;
    }
    match parse_u16(parts[3].as_slice()) {
        Some(track_num) => Some(
            CueVirtualInfo {
                physical_path: to_text(parts[0].as_slice()),
                start_time: to_text(parts[1].as_slice()),
                duration: to_text(parts[2].as_slice()),
                track_num,
            },
        ),
        None => None,
    }
}

/// Milliseconds of a number of frames, rounded. A frame is a 75th of a second,
/// so that the rounding never meets a tie.
pub open spec fn frame_millis(frames: int) -> int {
    (40 * frames + 1) / 3
}

/// Seconds with three decimals, of a number of frames.
pub open spec fn seconds_text(frames: int) -> Seq<char> {
    decimal(frame_millis(frames) / 1000) + seq!['.'] + three_digits(frame_millis(frames) % 1000)
}

/// The virtual path of a track.
pub open spec fn virtual_path_of(
    physical: Seq<char>,
    start_frames: int,
    duration_frames: int,
    track_num: int,
) -> Seq<char> {
    physical + seq!['|'] + seconds_text(start_frames) + seq!['|'] + seconds_text(duration_frames)
        + seq!['|'] + decimal(track_num)
}

fn push_seconds(to: &mut Vec<char>, frames: u32)
    ensures
        final(to)@ == old(to)@ + seconds_text(frames as int),
{
    let ghost start = to@;
    let millis: u64 = (40 * frames as u64 + 1) / 3;
    push_decimal(to, millis / 1000);
    to.push('.');
    push_three_digits(to, millis % 1000);
    assert(to@ =~= start + seconds_text(frames as int));
}

/// Writes the virtual path of a track.
pub fn cue_virtual_path(
    physical: &str,
    start_frames: u32,
    duration_frames: u32,
    track_num: u16,
) -> (r: String)
    ensures
        r@ == virtual_path_of(
            physical@,
            start_frames as int,
            duration_frames as int,
            track_num as int,
        ),
{
    let mut out: Vec<char> = to_chars(physical);
    out.push('|');
    push_seconds(&mut out, start_frames);
    out.push('|');
    push_seconds(&mut out, duration_frames);
    out.push('|');
    push_decimal(&mut out, track_num as u64);
    assert(out@ =~= virtual_path_of(
        physical@,
        start_frames as int,
        duration_frames as int,
        track_num as int,
    ));
    to_text(out.as_slice())
}

/// Whether a name, in lower case, is that of a cue sheet.
pub open spec fn has_cue_suffix(lowered: Seq<char>) -> bool {
    finishes_with(lowered, ".cue"@)
}

/// Tests whether a name that is in lower case already is that of a cue sheet.
pub fn is_cue_lowered(lowered: &str) -> (r: bool)
    ensures
        r == has_cue_suffix(lowered@),
{
    let chars: Vec<char> = to_chars(lowered);
    ends_with(chars.as_slice(), ".cue")
}

/// Tests whether a path names a cue sheet, in whatever case.
pub fn is_cue_path(path: &str) -> (r: bool)
    ensures
        r == has_cue_suffix(lowercase(path@)),
        all_ascii(path@) ==> r == has_cue_suffix(ascii_lower_all(path@)),
{
    let lowered: String = to_lowercase(path);
    is_cue_lowered(lowered.as_str())
}

/// Times of virtual paths are rounded to the nearest millisecond: a frame is a 75th
/// of a second.
pub proof fn law_frames_are_told_to_the_millisecond(frames: int)
    requires
        0 <= frames,
    ensures
        2 * (75 * frame_millis(frames) - 1000 * frames) < 75,
        2 * (1000 * frames - 75 * frame_millis(frames)) < 75,
        seconds_text(frames) == decimal(frame_millis(frames) / 1000) + seq!['.'] + three_digits(
            frame_millis(frames) % 1000,
        ),
        crate::number::digits_value(three_digits(frame_millis(frames) % 1000)) == frame_millis(
            frames,
        ) % 1000,
{
    crate::number::law_three_digits_read_back(frame_millis(frames) % 1000);
}

/// A virtual path is its file, begin, duration and number, in this order, with bars
/// between; and what is so written is read so.
pub proof fn law_virtual_paths_have_four_parts(
    physical: Seq<char>,
    start: Seq<char>,
    duration: Seq<char>,
    number: Seq<char>,
    start_frames: int,
    duration_frames: int,
    track_num: int,
)
    requires
        has_no_bar(physical),
        has_no_bar(start) && is_real(start),
        has_no_bar(duration) && is_real(duration),
        has_no_bar(number) && unsigned_value(number, u16::MAX as int) is Some,
    ensures
        virtual_path_of(physical, start_frames, duration_frames, track_num) == physical + seq!['|']
            + seconds_text(start_frames) + seq!['|'] + seconds_text(duration_frames) + seq!['|']
            + decimal(track_num),
        virtual_parts(
            physical + seq!['|'] + (start + seq!['|'] + (duration + seq!['|'] + number)),
        ) == Some(
            (physical, start, duration, unsigned_value(number, u16::MAX as int)->0),
        ),
{
    lemma_split_off(physical, start + seq!['|'] + (duration + seq!['|'] + number));
    lemma_split_off(start, duration + seq!['|'] + number);
    lemma_split_off(duration, number);
    lemma_split_none(number);
    assert(split(
        physical + seq!['|'] + (start + seq!['|'] + (duration + seq!['|'] + number)),
        '|',
    ) =~= seq![physical, start, duration, number]);
}

/// Reading the virtual path of a track gives its file, times and number back,
/// where the name of the file holds no bar.
pub proof fn law_virtual_path_reads_back(
    physical: Seq<char>,
    start_frames: int,
    duration_frames: int,
    track_num: int,
)
    requires
        0 <= start_frames,
        0 <= duration_frames,
        0 <= track_num <= u16::MAX,
        forall|i: int| 0 <= i < physical.len() ==> physical[i] != '|',
    ensures
        virtual_parts(virtual_path_of(physical, start_frames, duration_frames, track_num)) == Some(
            (physical, seconds_text(start_frames), seconds_text(duration_frames), track_num),
        ),
{
    let s = seconds_text(start_frames);
    let d = seconds_text(duration_frames);
    let t = decimal(track_num);
    let path = virtual_path_of(physical, start_frames, duration_frames, track_num);
    lemma_seconds_have_no_bar(start_frames);
    lemma_seconds_have_no_bar(duration_frames);
    lemma_decimal_has_no_bar(track_num);
    lemma_split_off(physical, s + seq!['|'] + d + seq!['|'] + t);
    lemma_split_off(s, d + seq!['|'] + t);
    lemma_split_off(d, t);
    lemma_split_none(t);
    assert(path =~= physical + seq!['|'] + (s + seq!['|'] + d + seq!['|'] + t));
    assert(s + seq!['|'] + d + seq!['|'] + t =~= s + seq!['|'] + (d + seq!['|'] + t));
    let parts = split(path, '|');
    assert(parts =~= seq![physical, s, d, t]);
    crate::number::law_decimal_reads_back(track_num, u16::MAX as int);
    crate::number::law_decimals_read_as_numbers(
        frame_millis(start_frames) / 1000,
        frame_millis(start_frames) % 1000,
    );
    crate::number::law_decimals_read_as_numbers(
        frame_millis(duration_frames) / 1000,
        frame_millis(duration_frames) % 1000,
    );
}

/// Whether a text holds no bar.
pub open spec fn has_no_bar(s: Seq<char>) -> bool {
    forall|i: int| 0 <= i < s.len() ==> s[i] != '|'
}

proof fn lemma_decimal_has_no_bar(n: int)
    requires
        0 <= n,
    ensures
        has_no_bar(decimal(n)),
    decreases n,
{
    if n >= 10 {
        lemma_decimal_has_no_bar(n / 10);
    }
}

proof fn lemma_seconds_have_no_bar(frames: int)
    requires
        0 <= frames,
    ensures
        has_no_bar(seconds_text(frames)),
{
    lemma_decimal_has_no_bar(frame_millis(frames) / 1000);
}

/// The first piece of a text, up to a bar, and the pieces of the rest.
proof fn lemma_split_off(head: Seq<char>, rest: Seq<char>)
    requires
        has_no_bar(head),
    ensures
        split(head + seq!['|'] + rest, '|') == seq![head] + split(rest, '|'),
{
    let all = head + seq!['|'] + rest;
    lemma_next_bar(all, 0, head.len() as int);
    assert(all.subrange(0, head.len() as int) =~= head);
    lemma_split_shift(all, rest, head.len() as int + 1, 0);
}

proof fn lemma_split_none(s: Seq<char>)
    requires
        has_no_bar(s),
    ensures
        split(s, '|') == seq![s],
{
    lemma_next_bar(s, 0, s.len() as int);
    assert(s.subrange(0, s.len() as int) =~= s);
}

proof fn lemma_next_bar(s: Seq<char>, from: int, stop: int)
    requires
        0 <= from <= stop <= s.len(),
        forall|i: int| from <= i < stop ==> s[i] != '|',
        stop < s.len() ==> s[stop] == '|',
    ensures
        crate::text::next_in_class(s, crate::text::CharClass::Only('|'), from) == stop,
    decreases stop - from,
{
    if from < stop {
        lemma_next_bar(s, from + 1, stop);
    }
}

proof fn lemma_next_shift(all: Seq<char>, rest: Seq<char>, by: int, from: int)
    requires
        0 <= by,
        0 <= from <= rest.len(),
        all.len() == by + rest.len(),
        forall|i: int| 0 <= i < rest.len() ==> all[by + i] == #[trigger] rest[i],
    ensures
        crate::text::next_in_class(all, crate::text::CharClass::Only('|'), by + from) == by
            + crate::text::next_in_class(rest, crate::text::CharClass::Only('|'), from),
        from <= crate::text::next_in_class(rest, crate::text::CharClass::Only('|'), from)
            <= rest.len(),
    decreases rest.len() - from,
{
    if from < rest.len() {
        assert(all[by + from] == rest[from]);
        if rest[from] != '|' {
            lemma_next_shift(all, rest, by, from + 1);
        }
    }
}

proof fn lemma_split_shift(all: Seq<char>, rest: Seq<char>, by: int, from: int)
    requires
        0 <= by,
        0 <= from <= rest.len(),
        all.len() == by + rest.len(),
        forall|i: int| 0 <= i < rest.len() ==> all[by + i] == #[trigger] rest[i],
    ensures
        crate::text::split_from(all, '|', by + from) == crate::text::split_from(rest, '|', from),
    decreases rest.len() - from,
{
    lemma_next_shift(all, rest, by, from);
    let stop = crate::text::next_in_class(rest, crate::text::CharClass::Only('|'), from);
    if stop < rest.len() {
        assert(all.subrange(by + from, by + stop) =~= rest.subrange(from, stop));
        lemma_split_shift(all, rest, by, stop + 1);
    } else {
        assert(all.subrange(by + from, all.len() as int) =~= rest.subrange(
            from,
            rest.len() as int,
        ));
    }
}

} // verus!
