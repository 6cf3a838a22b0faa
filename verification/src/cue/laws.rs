//! What a cue sheet says, told by its text: its lines, and the lines that stand
//! between two `TRACK` commands.

use vstd::prelude::*;

use super::parser::{
    command_line, cue_line, is_track, lines_of, raw_sheet, same_sheet_path, sheet_after, string_of,
    timestamp_frames, CueLine, CueTrack, RawSheetView, RawTrackView,
};
use crate::number::{all_digits, digits_value};
use crate::path::join;
use crate::text::{
    ascii_upper_all, begins_with, is_whitespace, law_search_back_ends_at_the_last,
    law_split_takes_off_the_first_piece, law_trimming_leaves_the_core,
    law_words_take_off_the_first_word, lemma_search_ends, words, CharClass,
};

verus! {

// ---------------------------------------------------------------------------
// Lines
// ---------------------------------------------------------------------------

/// Whether a text is white space alone.
pub open spec fn blank(s: Seq<char>) -> bool {
    forall|k: int| 0 <= k < s.len() ==> is_whitespace(#[trigger] s[k])
}

/// Whether a text holds no white space.
pub open spec fn solid(s: Seq<char>) -> bool {
    forall|k: int| 0 <= k < s.len() ==> !is_whitespace(#[trigger] s[k])
}

/// Whether a text neither begins nor ends with white space, and is not empty.
pub open spec fn has_edges(s: Seq<char>) -> bool {
    s.len() > 0 && !is_whitespace(s[0]) && !is_whitespace(s.last())
}

/// A line is a command and its argument, whatever white space stands around them
/// and whatever the case of the command. A remark says nothing.
pub proof fn law_line_is_a_command_with_its_argument(
    indent: Seq<char>,
    command: Seq<char>,
    gap: Seq<char>,
    value: Seq<char>,
    tail: Seq<char>,
)
    requires
        blank(indent),
        blank(gap),
        gap.len() > 0,
        blank(tail),
        solid(command),
        command.len() > 0,
        has_edges(value),
    ensures
        cue_line(indent + command + gap + value + tail) == if begins_with(
            command + gap + value,
            "REM"@,
        ) {
            CueLine::Ignored
        } else {
            command_line(ascii_upper_all(command), value)
        },
{
    let core = command + gap + value;
    let line = indent + command + gap + value + tail;
    let ws = CharClass::Whitespace;
    assert(core[0] == command[0]);
    assert(core.last() == value.last());
    assert(line =~= indent + core + tail);
    law_trimming_leaves_the_core(indent, core, tail, ws);
    let n = command.len() as int;
    assert forall|k: int| 0 <= k < n implies !ws.has(#[trigger] core[k]) by {
        assert(core[k] == command[k]);
    }
    assert(core[n] == gap[0]);
    lemma_search_ends(core, ws, 0, n);
    assert(core.subrange(0, n) =~= command);
    assert(core.subrange(n, core.len() as int) =~= gap + value + Seq::<char>::empty());
    law_trimming_leaves_the_core(gap, value, Seq::empty(), ws);
}

/// A command without an argument, or no command at all, says nothing.
pub proof fn law_lonely_words_say_nothing(indent: Seq<char>, word: Seq<char>, tail: Seq<char>)
    requires
        blank(indent),
        blank(tail),
        solid(word),
    ensures
        cue_line(indent + word + tail) is Ignored,
{
    let ws = CharClass::Whitespace;
    law_trimming_leaves_the_core(indent, word, tail, ws);
    lemma_search_ends(word, ws, 0, word.len() as int);
}

/// Titles and performers are given without the quotes around them.
pub proof fn law_quoted_names_are_read(name: Seq<char>)
    requires
        has_edges(name),
        name[0] != '"' && name.last() != '"',
        name[0] != '\'' && name.last() != '\'',
    ensures
        command_line("TITLE"@, seq!['"'] + name + seq!['"']) == CueLine::Title(name),
        command_line("TITLE"@, name) == CueLine::Title(name),
        command_line("PERFORMER"@, seq!['"'] + name + seq!['"']) == CueLine::Performer(name),
        command_line("PERFORMER"@, name) == CueLine::Performer(name),
{
    let quoted = seq!['"'] + name + seq!['"'];
    let none = Seq::<char>::empty();
    let ws = CharClass::Whitespace;
    reveal_strlit("TITLE");
    reveal_strlit("PERFORMER");
    assert("TITLE"@.len() != "PERFORMER"@.len());
    assert(none + quoted + none =~= quoted);
    assert(none + name + none =~= name);
    law_trimming_leaves_the_core(none, quoted, none, ws);
    law_trimming_leaves_the_core(seq!['"'], name, seq!['"'], CharClass::Only('"'));
    law_trimming_leaves_the_core(none, name, none, CharClass::Only('"'));
    law_trimming_leaves_the_core(none, name, none, CharClass::Only('\''));
    law_trimming_leaves_the_core(none, name, none, ws);
}

/// The name of a file is what stands between quotes, or else all but the last word.
pub proof fn law_file_names_are_read(name: Seq<char>, kind: Seq<char>)
    requires
        forall|k: int| 0 <= k < name.len() ==> #[trigger] name[k] != '"',
        forall|k: int| 0 <= k < kind.len() ==> #[trigger] kind[k] != '"',
        solid(kind),
    ensures
        command_line("FILE"@, seq!['"'] + name + seq!['"', ' '] + kind) == CueLine::File(name),
        command_line("FILE"@, name + seq![' '] + kind) == CueLine::File(name),
{
    let quote = CharClass::Only('"');
    let ws = CharClass::Whitespace;
    reveal_strlit("FILE");
    reveal_strlit("TITLE");
    reveal_strlit("PERFORMER");
    assert("FILE"@.len() == 4 && "TITLE"@.len() == 5 && "PERFORMER"@.len() == 9);
    let quoted = seq!['"'] + name + seq!['"', ' '] + kind;
    let n = name.len() as int;
    lemma_search_ends(quoted, quote, 0, 0);
    assert forall|k: int| 1 <= k < n + 1 implies !quote.has(#[trigger] quoted[k]) by {
        assert(quoted[k] == name[k - 1]);
    }
    assert(quoted[n + 1] == '"');
    lemma_search_ends(quoted, quote, 1, n + 1);
    assert(quoted.subrange(1, n + 1) =~= name);
    let plain = name + seq![' '] + kind;
    assert forall|k: int| 0 <= k < plain.len() implies !quote.has(#[trigger] plain[k]) by {
        if k < n {
            assert(plain[k] == name[k]);
        } else if k > n {
            assert(plain[k] == kind[k - n - 1]);
        }
    }
    lemma_search_ends(plain, quote, 0, plain.len() as int);
    law_search_back_ends_at_the_last(plain, ws);
    assert(plain[n] == ' ');
    assert(ws.has(plain[n]));
    let last = crate::text::last_in_class(plain, ws);
    assert(last is Some);
    let i = last->0;
    if i > n {
        assert(plain[i] == kind[i - n - 1]);
    }
    assert(i == n);
    assert(plain.subrange(0, n) =~= name);
}

/// The number of a track is the first word behind the command.
pub proof fn law_track_numbers_are_read(number: Seq<char>, rest: Seq<char>)
    requires
        number.len() > 0,
        all_digits(number),
        rest.len() > 0 ==> is_whitespace(rest[0]),
    ensures
        command_line("TRACK"@, number + rest) == CueLine::Track(
            if digits_value(number) <= u16::MAX {
                Some(digits_value(number))
            } else {
                None
            },
        ),
{
    reveal_strlit("TRACK");
    reveal_strlit("FILE");
    reveal_strlit("TITLE");
    reveal_strlit("PERFORMER");
    assert("TRACK"@[1] != "TITLE"@[1]);
    assert("TRACK"@.len() == 5 && "FILE"@.len() == 4 && "PERFORMER"@.len() == 9);
    lemma_digits_are_solid(number);
    let none = Seq::<char>::empty();
    assert(none + number + rest =~= number + rest);
    law_words_take_off_the_first_word(none, number, rest);
    assert(words(number + rest)[0] == number);
}

proof fn lemma_digits_are_solid(s: Seq<char>)
    requires
        all_digits(s),
    ensures
        solid(s),
        forall|k: int| 0 <= k < s.len() ==> #[trigger] s[k] != ':',
        s.len() > 0 ==> s[0] != '+' && s[0] != '-',
{
    assert forall|k: int| 0 <= k < s.len() implies !is_whitespace(#[trigger] s[k]) by {
        assert(crate::number::is_digit(s[k]));
    }
    assert forall|k: int| 0 <= k < s.len() implies #[trigger] s[k] != ':' by {
        assert(crate::number::is_digit(s[k]));
    }
    if s.len() > 0 {
        assert(crate::number::is_digit(s[0]));
    }
}

/// A time stamp counts frames: 75 to a second, 60 seconds to a minute.
pub proof fn law_time_stamps_count_frames(
    minutes: Seq<char>,
    seconds: Seq<char>,
    frames: Seq<char>,
)
    requires
        minutes.len() > 0 && all_digits(minutes),
        seconds.len() > 0 && all_digits(seconds),
        frames.len() > 0 && all_digits(frames),
        4500 * digits_value(minutes) + 75 * digits_value(seconds) + digits_value(frames)
            <= u32::MAX,
    ensures
        timestamp_frames(minutes + seq![':'] + (seconds + seq![':'] + frames)) == Some(
            4500 * digits_value(minutes) + 75 * digits_value(seconds) + digits_value(frames),
        ),
{
    lemma_digits_are_solid(minutes);
    lemma_digits_are_solid(seconds);
    lemma_digits_are_solid(frames);
    crate::number::lemma_digits_are_not_negative(minutes);
    crate::number::lemma_digits_are_not_negative(seconds);
    crate::number::lemma_digits_are_not_negative(frames);
    law_split_takes_off_the_first_piece(minutes, seconds + seq![':'] + frames, ':');
    law_split_takes_off_the_first_piece(seconds, frames, ':');
    law_split_takes_off_the_first_piece(frames, Seq::empty(), ':');
    let parts = crate::text::split(minutes + seq![':'] + (seconds + seq![':'] + frames), ':');
    assert(parts =~= seq![minutes, seconds, frames]);
    let none = Seq::<char>::empty();
    assert(none + minutes + none =~= minutes);
    assert(none + seconds + none =~= seconds);
    assert(none + frames + none =~= frames);
    law_trimming_leaves_the_core(none, minutes, none, CharClass::Whitespace);
    law_trimming_leaves_the_core(none, seconds, none, CharClass::Whitespace);
    law_trimming_leaves_the_core(none, frames, none, CharClass::Whitespace);
}

/// Of the marks of a track, `00` is where the gap before it begins and `01` where
/// it begins itself; others say nothing.
pub proof fn law_index_marks_are_read(number: Seq<char>, gap: Seq<char>, stamp: Seq<char>)
    requires
        number.len() > 0,
        solid(number),
        gap.len() > 0,
        blank(gap),
        stamp.len() > 0,
        solid(stamp),
        timestamp_frames(stamp) is Some,
    ensures
        number == "00"@ ==> command_line("INDEX"@, number + gap + stamp) == CueLine::Index0(
            timestamp_frames(stamp)->0,
        ),
        number == "01"@ ==> command_line("INDEX"@, number + gap + stamp) == CueLine::Index1(
            timestamp_frames(stamp)->0,
        ),
        number != "00"@ && number != "01"@ ==> command_line("INDEX"@, number + gap + stamp)
            is Ignored,
{
    reveal_strlit("INDEX");
    reveal_strlit("TRACK");
    reveal_strlit("FILE");
    reveal_strlit("TITLE");
    reveal_strlit("PERFORMER");
    reveal_strlit("00");
    reveal_strlit("01");
    assert("INDEX"@[0] != "TRACK"@[0] && "INDEX"@[0] != "TITLE"@[0]);
    assert("INDEX"@.len() == 5 && "FILE"@.len() == 4 && "PERFORMER"@.len() == 9);
    assert("00"@[1] != "01"@[1]);
    let none = Seq::<char>::empty();
    let val = number + gap + stamp;
    assert(val =~= none + number + (gap + stamp));
    law_words_take_off_the_first_word(none, number, gap + stamp);
    assert(gap + stamp =~= gap + stamp + none);
    law_words_take_off_the_first_word(gap, stamp, none);
    assert(words(val)[0] == number && words(val)[1] == stamp);
}

// ---------------------------------------------------------------------------
// Sheets
// ---------------------------------------------------------------------------

/// What the lines of a sheet say, one by one.
pub open spec fn said_by(lines: Seq<Seq<char>>) -> Seq<CueLine> {
    lines.map_values(|line: Seq<char>| cue_line(line))
}

/// How many of the first `n` lines name a file.
pub open spec fn files_named(said: Seq<CueLine>, n: int) -> int
    decreases n,
{
    if n <= 0 {
        0
    } else if said[n - 1] is File {
        files_named(said, n - 1) + 1
    } else {
        files_named(said, n - 1)
    }
}

/// The places, among the first `n` lines, of those that begin a track.
pub open spec fn track_places(said: Seq<CueLine>, n: int) -> Seq<int>
    decreases n,
{
    if n <= 0 {
        Seq::empty()
    } else if said[n - 1] is Track {
        track_places(said, n - 1).push(n - 1)
    } else {
        track_places(said, n - 1)
    }
}

/// The title that stands last in the lines from `from` up to `to`.
pub open spec fn last_title(said: Seq<CueLine>, from: int, to: int) -> Option<Seq<char>>
    decreases to - from,
{
    if to <= from {
        None
    } else {
        match said[to - 1] {
            CueLine::Title(t) => Some(t),
            _ => last_title(said, from, to - 1),
        }
    }
}

/// The performer that stands last in the lines from `from` up to `to`.
pub open spec fn last_performer(said: Seq<CueLine>, from: int, to: int) -> Option<Seq<char>>
    decreases to - from,
{
    if to <= from {
        None
    } else {
        match said[to - 1] {
            CueLine::Performer(t) => Some(t),
            _ => last_performer(said, from, to - 1),
        }
    }
}

/// The begin of a gap that stands last in the lines from `from` up to `to`.
pub open spec fn last_gap(said: Seq<CueLine>, from: int, to: int) -> Option<u32>
    decreases to - from,
{
    if to <= from {
        None
    } else {
        match said[to - 1] {
            CueLine::Index0(k) => Some(k as u32),
            _ => last_gap(said, from, to - 1),
        }
    }
}

/// The begin of a track that stands last in the lines from `from` up to `to`.
pub open spec fn last_begin(said: Seq<CueLine>, from: int, to: int) -> Option<u32>
    decreases to - from,
{
    if to <= from {
        None
    } else {
        match said[to - 1] {
            CueLine::Index1(k) => Some(k as u32),
            _ => last_begin(said, from, to - 1),
        }
    }
}

/// The line behind the last one about track `i`: the next track's, or the end.
pub open spec fn section_end(places: Seq<int>, i: int, n: int) -> int {
    if i + 1 < places.len() {
        places[i + 1]
    } else {
        n
    }
}

/// The line behind the last one about the whole sheet: the first track's, or the
/// end.
pub open spec fn head_end(places: Seq<int>, n: int) -> int {
    if places.len() > 0 {
        places[0]
    } else {
        n
    }
}

/// Whether a track is as the lines from its own up to `to` tell.
spec fn told_by(track: RawTrackView, said: Seq<CueLine>, at: int, to: int) -> bool {
    &&& track.title == last_title(said, at + 1, to)
    &&& track.artist == last_performer(said, at + 1, to)
    &&& track.index0 == last_gap(said, at + 1, to)
    &&& track.index1 == last_begin(said, at + 1, to)
}

/// Whether a track is in the file named last before it, with the number it has.
spec fn placed_by(
    track: RawTrackView,
    said: Seq<CueLine>,
    at: int,
    i: int,
    base: Seq<char>,
    resolved: Seq<Seq<char>>,
) -> bool {
    &&& track.path == if files_named(said, at) > 0 {
        resolved[files_named(said, at) - 1]
    } else {
        join(base, "unknown.audio"@)
    }
    &&& track.num == match said[at]->Track_0 {
        Some(k) => k,
        None => (i + 1) % 0x1_0000,
    }
}

/// Whether a sheet is as the first `n` lines tell.
spec fn sheet_told(
    sheet: RawSheetView,
    said: Seq<CueLine>,
    n: int,
    base: Seq<char>,
    resolved: Seq<Seq<char>>,
) -> bool {
    let places = track_places(said, n);
    &&& sheet.files == files_named(said, n)
    &&& 0 <= sheet.files
    &&& sheet.file == if sheet.files > 0 {
        Some(resolved[sheet.files - 1])
    } else {
        None
    }
    &&& sheet.tracks.len() == places.len()
    &&& sheet.title == last_title(said, 0, head_end(places, n))
    &&& sheet.performer == last_performer(said, 0, head_end(places, n))
    &&& forall|i: int| #![trigger sheet.tracks[i]]
        0 <= i < places.len() ==> {
            &&& placed_by(sheet.tracks[i], said, places[i], i, base, resolved)
            &&& told_by(sheet.tracks[i], said, places[i], section_end(places, i, n))
        }
}

proof fn lemma_places(said: Seq<CueLine>, n: int)
    ensures
        forall|i: int|
            0 <= i < track_places(said, n).len() ==> 0 <= #[trigger] track_places(said, n)[i] < n
                && said[track_places(said, n)[i]] is Track,
    decreases n,
{
    if n > 0 {
        lemma_places(said, n - 1);
    }
}

/// One more line keeps a sheet as its lines tell.
proof fn lemma_line_told(
    before: RawSheetView,
    said: Seq<CueLine>,
    m: int,
    base: Seq<char>,
    resolved: Seq<Seq<char>>,
)
    requires
        0 <= m,
        sheet_told(before, said, m, base, resolved),
    ensures
        sheet_told(before.after(said[m], base, resolved), said, m + 1, base, resolved),
{
    let n = m + 1;
    let line = said[m];
    let after = before.after(line, base, resolved);
    let old_places = track_places(said, m);
    let places = track_places(said, n);
    let count = old_places.len() as int;
    if count > 0 {
        assert(places[0] == old_places[0]);
    }
    lemma_places(said, m);
    assert forall|i: int| #![trigger after.tracks[i]] 0 <= i < places.len() implies {
        &&& placed_by(after.tracks[i], said, places[i], i, base, resolved)
        &&& told_by(after.tracks[i], said, places[i], section_end(places, i, n))
    } by {
        if i < count {
            let old = before.tracks[i];
            let at = old_places[i];
            assert(places[i] == at);
            assert(told_by(old, said, at, section_end(old_places, i, m)));
            if i == count - 1 && !(line is Track) {
                assert(told_by(old, said, at, m));
            } else {
                assert(after.tracks[i] == old);
            }
        }
    }
}

proof fn lemma_sheet_told(
    lines: Seq<Seq<char>>,
    n: int,
    base: Seq<char>,
    resolved: Seq<Seq<char>>,
)
    requires
        0 <= n <= lines.len(),
    ensures
        sheet_told(sheet_after(lines, n, base, resolved), said_by(lines), n, base, resolved),
    decreases n,
{
    let said = said_by(lines);
    if n > 0 {
        lemma_sheet_told(lines, n - 1, base, resolved);
        assert(said[n - 1] == cue_line(lines[n - 1]));
        lemma_line_told(sheet_after(lines, n - 1, base, resolved), said, n - 1, base, resolved);
    }
}

/// A sheet holds one track for each `TRACK` command, in order. A track lies in the
/// file that the last `FILE` command before its own means, by counting them; has
/// the number that stands in its command, or its place in the sheet; and has the
/// title, performer and marks that stand last between its command and the next
/// `TRACK`. What names a title or a performer before all of them is about the
/// whole sheet.
pub proof fn law_a_sheet_is_told_by_its_lines(
    content: Seq<char>,
    base: Seq<char>,
    resolved: Seq<Seq<char>>,
)
    ensures
        ({
            let said = said_by(lines_of(content));
            let n = said.len() as int;
            let places = track_places(said, n);
            let sheet = raw_sheet(content, base, resolved);
            &&& sheet.tracks.len() == places.len()
            &&& sheet.title == last_title(said, 0, head_end(places, n))
            &&& sheet.performer == last_performer(said, 0, head_end(places, n))
            &&& forall|i: int| #![trigger sheet.tracks[i]]
                0 <= i < places.len() ==> {
                    let track = sheet.tracks[i];
                    let at = places[i];
                    let end = section_end(places, i, n);
                    &&& said[at] is Track
                    &&& files_named(said, at) > 0 ==> track.path == resolved[files_named(
                        said,
                        at,
                    ) - 1]
                    &&& files_named(said, at) == 0 ==> track.path == join(
                        base,
                        "unknown.audio"@,
                    )
                    &&& track.num == match said[at]->Track_0 {
                        Some(k) => k,
                        None => (i + 1) % 0x1_0000,
                    }
                    &&& track.title == last_title(said, at + 1, end)
                    &&& track.artist == last_performer(said, at + 1, end)
                    &&& track.index0 == last_gap(said, at + 1, end)
                    &&& track.index1 == last_begin(said, at + 1, end)
                }
        }),
{
    let lines = lines_of(content);
    let said = said_by(lines);
    let n = lines.len() as int;
    lemma_sheet_told(lines, n, base, resolved);
    lemma_places(said, n);
    let places = track_places(said, n);
    let sheet = raw_sheet(content, base, resolved);
    assert forall|i: int| #![trigger sheet.tracks[i]] 0 <= i < places.len() implies files_named(
        said,
        places[i],
    ) >= 0 by {
        lemma_files_named(said, places[i]);
    }
}

proof fn lemma_files_named(said: Seq<CueLine>, n: int)
    ensures
        0 <= files_named(said, n),
    decreases n,
{
    if n > 0 {
        lemma_files_named(said, n - 1);
    }
}

/// A track of a sheet that was read is as its lines tell: its file, number, title
/// and marks; its performer, or else that of the sheet; the sheet's title as its
/// album. It begins at its mark, or else with its file. It lasts up to the begin of
/// the next track where that lies in the same file, and else to the end of it, and
/// its virtual path tells file, begin, duration and number.
pub proof fn law_a_track_is_told_by_its_sheet(track: CueTrack, sheet: RawSheetView, i: int)
    requires
        0 <= i < sheet.tracks.len(),
        is_track(track, sheet, i),
    ensures
        track.physical_path@ == sheet.tracks[i].path,
        track.track_num == sheet.tracks[i].num,
        string_of(track.title) == sheet.tracks[i].title,
        sheet.tracks[i].artist is Some ==> string_of(track.artist) == sheet.tracks[i].artist,
        sheet.tracks[i].artist is None ==> string_of(track.artist) == sheet.performer,
        string_of(track.album) == sheet.title,
        track.index0_frames == sheet.tracks[i].index0,
        sheet.tracks[i].index1 is Some ==> track.cue_start_frames == sheet.tracks[i].index1->0,
        sheet.tracks[i].index1 is None ==> track.cue_start_frames == 0,
        i + 1 == sheet.tracks.len() ==> track.cue_duration_frames is None,
        i + 1 < sheet.tracks.len() && !same_sheet_path(sheet, i) ==> track.cue_duration_frames
            is None,
        i + 1 < sheet.tracks.len() && same_sheet_path(sheet, i) && sheet.tracks[i + 1].index1
            is Some && sheet.tracks[i + 1].index1->0 >= track.cue_start_frames ==> (
        track.cue_duration_frames matches Some(d) && track.cue_start_frames + d
            == sheet.tracks[i + 1].index1->0),
        track.virtual_path@ == super::virtual_path_of(
            track.physical_path@,
            track.cue_start_frames as int,
            match track.cue_duration_frames {
                Some(d) => d as int,
                None => 0,
            },
            track.track_num as int,
        ),
{
}

/// A byte order mark in front of a sheet is no part of it, and nothing else is
/// taken away.
pub proof fn law_a_mark_is_no_part_of_the_sheet(s: Seq<char>)
    ensures
        super::parser::without_mark(seq!['\u{feff}'] + s) == s,
        s.len() == 0 || s[0] != '\u{feff}' ==> super::parser::without_mark(s) == s,
{
    assert((seq!['\u{feff}'] + s).drop_first() =~= s);
}

/// A sheet is told by the ending of its name.
pub proof fn law_sheets_are_told_by_their_ending(name: Seq<char>)
    ensures
        super::has_cue_suffix(name + seq!['.', 'c', 'u', 'e']),
        super::has_cue_suffix(name) ==> name.len() >= 4 && name.skip(name.len() - 4) == seq![
            '.',
            'c',
            'u',
            'e',
        ],
{
    reveal_strlit(".cue");
    assert(".cue"@ =~= seq!['.', 'c', 'u', 'e']);
    let s = name + ".cue"@;
    assert(s.subrange(s.len() - 4, s.len() as int) =~= ".cue"@);
    if super::has_cue_suffix(name) {
        assert(name.subrange(name.len() - 4, name.len() as int) =~= name.skip(name.len() - 4));
    }
}

/// A path is no track where it has not four parts, or where its start or duration is
/// no number, or its track no number of 16 bits.
pub proof fn law_tracks_have_numbers(
    physical: Seq<char>,
    start: Seq<char>,
    duration: Seq<char>,
    number: Seq<char>,
)
    requires
        super::has_no_bar(physical),
        super::has_no_bar(start),
        super::has_no_bar(duration),
        super::has_no_bar(number),
    ensures
        super::virtual_parts(physical) is None,
        super::virtual_parts(physical + seq!['|'] + start) is None,
        super::virtual_parts(physical + seq!['|'] + (start + seq!['|'] + duration)) is None,
        ({
            let path = physical + seq!['|'] + (start + seq!['|'] + (duration + seq!['|'] + number));
            super::virtual_parts(path) is Some <==> crate::number::is_real(start)
                && crate::number::is_real(duration) && crate::number::unsigned_value(number, 65_535)
                is Some
        }),
{
    let two = duration + seq!['|'] + number;
    let three = start + seq!['|'] + two;
    let path = physical + seq!['|'] + three;
    crate::text::law_split_takes_off_the_first_piece(number, number, '|');
    crate::text::law_split_takes_off_the_first_piece(duration, number, '|');
    crate::text::law_split_takes_off_the_first_piece(start, two, '|');
    crate::text::law_split_takes_off_the_first_piece(start, duration, '|');
    crate::text::law_split_takes_off_the_first_piece(physical, three, '|');
    crate::text::law_split_takes_off_the_first_piece(physical, start, '|');
    crate::text::law_split_takes_off_the_first_piece(physical, start + seq!['|'] + duration, '|');
    let parts = crate::text::split(path, '|');
    assert(parts =~= seq![physical, start, duration, number]);
}

/// What has not three parts, or a part that is no number, is no time stamp.
pub proof fn law_time_stamps_are_three_numbers(
    minutes: Seq<char>,
    seconds: Seq<char>,
    frames: Seq<char>,
)
    requires
        forall|k: int| 0 <= k < minutes.len() ==> #[trigger] minutes[k] != ':',
        forall|k: int| 0 <= k < seconds.len() ==> #[trigger] seconds[k] != ':',
        forall|k: int| 0 <= k < frames.len() ==> #[trigger] frames[k] != ':',
    ensures
        ({
            let stamp = timestamp_frames(minutes + seq![':'] + (seconds + seq![':'] + frames));
            let max = 4_294_967_295;
            let m = crate::number::unsigned_value(crate::text::trim_ws(minutes), max);
            let s = crate::number::unsigned_value(crate::text::trim_ws(seconds), max);
            let f = crate::number::unsigned_value(crate::text::trim_ws(frames), max);
            &&& m is None || s is None || f is None ==> stamp is None
            &&& m is Some && s is Some && f is Some && 4500 * m->0 + 75 * s->0 + f->0 > max
                ==> stamp is None
        }),
        timestamp_frames(minutes) is None,
        timestamp_frames(minutes + seq![':'] + seconds) is None,
{
    law_split_takes_off_the_first_piece(minutes, seconds + seq![':'] + frames, ':');
    law_split_takes_off_the_first_piece(seconds, frames, ':');
    law_split_takes_off_the_first_piece(minutes, seconds, ':');
    law_split_takes_off_the_first_piece(frames, Seq::empty(), ':');
    let parts = crate::text::split(minutes + seq![':'] + (seconds + seq![':'] + frames), ':');
    assert(parts =~= seq![minutes, seconds, frames]);
}

} // verus!
