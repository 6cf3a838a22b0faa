//! The text of a cue sheet: its encoding, its commands, and the tracks they
//! describe.

use vstd::prelude::*;

use super::{cue_virtual_path, virtual_path_of};
use crate::encoding::{decodable, decode_labelled, decoding, guess_encoding, guessed_encoding};
use crate::number::{parse_u16, parse_u32, unsigned_value};
use crate::path::{join, path_join, paths_same, same_path, text_of};
use crate::text::{
    ascii_upper_all, begins_with, find_in_class, is_literal, last_in_class, next_in_class, part,
    rfind_in_class, split, split_at_char, split_words, starts_with, texts, to_ascii_upper,
    to_chars, to_text, trim, trim_ws, trimmed, words, CharClass,
};

verus! {

// ---------------------------------------------------------------------------
// Decoding
// ---------------------------------------------------------------------------

/// A text without the byte order mark at its start.
pub open spec fn without_mark(s: Seq<char>) -> Seq<char> {
    if s.len() > 0 && s[0] == '\u{feff}' {
        s.drop_first()
    } else {
        s
    }
}

/// Drops the byte order mark at the start of a text.
pub fn strip_mark(s: &str) -> (r: String)
    ensures
        r@ == without_mark(s@),
{
    let chars: Vec<char> = to_chars(s);
    let from: usize = if chars.len() > 0 && chars[0] == '\u{feff}' {
        1
    } else {
        0
    };
    let rest: Vec<char> = part(chars.as_slice(), from, chars.len());
    assert(rest@ =~= without_mark(s@));
    to_text(rest.as_slice())
}

/// Turns bytes into text: as UTF-8 where they are well-formed, and else in the
/// encoding that they are guessed to be in.
pub fn decode_text_auto(bytes: &[u8]) -> (r: String)
    requires
        decodable(bytes@.len() as int),
    ensures
        vstd::utf8::valid_utf8(bytes@) ==> r@ == without_mark(vstd::utf8::decode_utf8(bytes@)),
        !vstd::utf8::valid_utf8(bytes@) ==> match decoding(guessed_encoding(bytes@), bytes@) {
            Some((text, _)) => r@ == without_mark(text),
            None => false,
        },
{
    match core::str::from_utf8(bytes) {
        Ok(text) => strip_mark(text),
        Err(_) => {
            let label: String = guess_encoding(bytes);
            match decode_labelled(label.as_str(), bytes) {
                Some((text, _)) => strip_mark(text.as_str()),
                None => String::new(),
            }
        },
    }
}

// ---------------------------------------------------------------------------
// Time stamps
// ---------------------------------------------------------------------------

/// Frames of a time stamp `MM:SS:FF`, of 75 to a second; `None` where it is
/// malformed or its frames exceed 32 bits.
pub open spec fn timestamp_frames(ts: Seq<char>) -> Option<int> {
    let parts = split(ts, ':');
    let max = u32::MAX as int;
    if parts.len() != 3 {
        None
    } else {
        let minutes = unsigned_value(trim_ws(parts[0]), max);
        let seconds = unsigned_value(trim_ws(parts[1]), max);
        let frames = unsigned_value(trim_ws(parts[2]), max);
        if minutes is None || seconds is None || frames is None {
            None
        } else {
            let total = (minutes->0 * 60 + seconds->0) * 75 + frames->0;
            if total > max {
                None
            } else {
                Some(total)
            }
        }
    }
}

fn number_part(parts: &Vec<Vec<char>>, i: usize) -> (r: Option<u32>)
    requires
        i < parts@.len(),
    ensures
        match r {
            Some(n) => unsigned_value(trim_ws(texts(parts@)[i as int]), u32::MAX as int) == Some(
                n as int,
            ),
            None => unsigned_value(trim_ws(texts(parts@)[i as int]), u32::MAX as int) is None,
        },
{
    let piece: Vec<char> = trimmed(parts[i].as_slice(), CharClass::Whitespace);
    parse_u32(piece.as_slice())
}

/// Reads a time stamp `MM:SS:FF` as frames.
pub fn parse_timestamp_frames(ts: &str) -> (r: Option<u32>)
    ensures
        match r {
            Some(n) => timestamp_frames(ts@) == Some(n as int),
            None => timestamp_frames(ts@) is None,
        },
{
    let chars: Vec<char> = to_chars(ts);
    timestamp_of(chars.as_slice())
}

fn timestamp_of(ts: &[char]) -> (r: Option<u32>)
    ensures
        match r {
            Some(n) => timestamp_frames(ts@) == Some(n as int),
            None => timestamp_frames(ts@) is None,
        },
{
    let parts: Vec<Vec<char>> = split_at_char(ts, ':');
    assert(texts(parts@).len() == parts@.len());
    if parts.len() != 3 {
        return None;
    }
    let minutes: u32 = match number_part(&parts, 0) {
        Some(n) => n,
        None => {
            return None;
        },
    };
    let seconds: u32 = match number_part(&parts, 1) {
        Some(n) => n,
        None => {
            return None;
        },
    };
    let frames: u32 = match number_part(&parts, 2) {
        Some(n) => n,
        None => {
            return None;
        },
    };
    let total: u64 = (minutes as u64 * 60 + seconds as u64) * 75 + frames as u64;
    if total > u32::MAX as u64 {
        return None;
    }
    Some(total as u32)
}

// ---------------------------------------------------------------------------
// Commands
// ---------------------------------------------------------------------------

/// A text without the white space and the quotes around it.
pub open spec fn unquoted(s: Seq<char>) -> Seq<char> {
    trim_ws(trim(trim(trim_ws(s), CharClass::Only('"')), CharClass::Only('\'')))
}

/// Drops the white space and the quotes around a text.
pub fn trim_quotes(s: &[char]) -> (r: Vec<char>)
    ensures
        r@ == unquoted(s@),
{
    let a: Vec<char> = trimmed(s, CharClass::Whitespace);
    let b: Vec<char> = trimmed(a.as_slice(), CharClass::Only('"'));
    let c: Vec<char> = trimmed(b.as_slice(), CharClass::Only('\''));
    trimmed(c.as_slice(), CharClass::Whitespace)
}

/// The name in a `FILE` command: what stands between the first two quotes; or
/// else all but the last word.
pub open spec fn file_reference(val: Seq<char>) -> Seq<char> {
    let quote = CharClass::Only('"');
    let open = next_in_class(val, quote, 0);
    if open < val.len() {
        let close = next_in_class(val, quote, open + 1);
        if close < val.len() {
            val.subrange(open + 1, close)
        } else {
            val
        }
    } else {
        match last_in_class(val, CharClass::Whitespace) {
            Some(i) => val.subrange(0, i),
            None => val,
        }
    }
}

fn file_reference_of(val: &[char]) -> (r: Vec<char>)
    ensures
        r@ == file_reference(val@),
{
    let quote = CharClass::Only('"');
    let n: usize = val.len();
    let open: usize = find_in_class(val, quote, 0);
    if open < n {
        let close: usize = find_in_class(val, quote, open + 1);
        if close < n {
            return part(val, open + 1, close);
        }
    } else if let Some(i) = rfind_in_class(val, CharClass::Whitespace) {
        return part(val, 0, i);
    }
    let all: Vec<char> = part(val, 0, n);
    assert(all@ =~= val@);
    all
}

/// What a line of a cue sheet says.
pub enum CueLine {
    Performer(Seq<char>),
    Title(Seq<char>),
    File(Seq<char>),
    /// A track, with its number where it has one.
    Track(Option<int>),
    /// Frames at which the gap before the track begins.
    Index0(int),
    /// Frames at which the track begins.
    Index1(int),
    Ignored,
}

/// What an `INDEX` command says.
pub open spec fn index_line(val: Seq<char>) -> CueLine {
    let w = words(val);
    if w.len() >= 2 && timestamp_frames(w[1]) is Some {
        if w[0] == "00"@ {
            CueLine::Index0(timestamp_frames(w[1])->0)
        } else if w[0] == "01"@ {
            CueLine::Index1(timestamp_frames(w[1])->0)
        } else {
            CueLine::Ignored
        }
    } else {
        CueLine::Ignored
    }
}

/// What a command with its argument says.
pub open spec fn command_line(cmd: Seq<char>, val: Seq<char>) -> CueLine {
    if cmd == "PERFORMER"@ {
        CueLine::Performer(unquoted(val))
    } else if cmd == "TITLE"@ {
        CueLine::Title(unquoted(val))
    } else if cmd == "FILE"@ {
        CueLine::File(file_reference(val))
    } else if cmd == "TRACK"@ {
        CueLine::Track(
            if words(val).len() > 0 {
                unsigned_value(words(val)[0], u16::MAX as int)
            } else {
                None
            },
        )
    } else if cmd == "INDEX"@ {
        index_line(val)
    } else {
        CueLine::Ignored
    }
}

/// What a line of a cue sheet says. Remarks and lines of one word say nothing.
pub open spec fn cue_line(line: Seq<char>) -> CueLine {
    let t = trim_ws(line);
    let stop = next_in_class(t, CharClass::Whitespace, 0);
    if t.len() == 0 || begins_with(t, "REM"@) || stop >= t.len() {
        CueLine::Ignored
    } else {
        command_line(
            ascii_upper_all(t.subrange(0, stop)),
            trim_ws(t.subrange(stop, t.len() as int)),
        )
    }
}

/// What a line of a cue sheet says, as read.
pub enum CueCommand {
    Performer(Vec<char>),
    Title(Vec<char>),
    File(Vec<char>),
    Track(Option<u16>),
    Index0(u32),
    Index1(u32),
    Ignored,
}

impl View for CueCommand {
    type V = CueLine;

    open spec fn view(&self) -> CueLine {
        match self {
            CueCommand::Performer(t) => CueLine::Performer(t@),
            CueCommand::Title(t) => CueLine::Title(t@),
            CueCommand::File(t) => CueLine::File(t@),
            CueCommand::Track(n) => CueLine::Track(
                match n {
                    Some(k) => Some(*k as int),
                    None => None,
                },
            ),
            CueCommand::Index0(n) => CueLine::Index0(*n as int),
            CueCommand::Index1(n) => CueLine::Index1(*n as int),
            CueCommand::Ignored => CueLine::Ignored,
        }
    }
}

fn index_command(val: &[char]) -> (r: CueCommand)
    ensures
        r@ == index_line(val@),
{
    let w: Vec<Vec<char>> = split_words(val);
    assert(texts(w@).len() == w@.len());
    if w.len() < 2 {
        return CueCommand::Ignored;
    }
    assert(texts(w@)[0] == w@[0]@ && texts(w@)[1] == w@[1]@);
    match timestamp_of(w[1].as_slice()) {
        Some(frames) => {
            if is_literal(w[0].as_slice(), "00") {
                CueCommand::Index0(frames)
            } else if is_literal(w[0].as_slice(), "01") {
                CueCommand::Index1(frames)
            } else {
                CueCommand::Ignored
            }
        },
        None => CueCommand::Ignored,
    }
}

/// Reads a line of a cue sheet.
pub fn parse_cue_line(line: &[char]) -> (r: CueCommand)
    ensures
        r@ == cue_line(line@),
{
    let t: Vec<char> = trimmed(line, CharClass::Whitespace);
    let n: usize = t.len();
    if n == 0 || starts_with(t.as_slice(), "REM") {
        return CueCommand::Ignored;
    }
    let stop: usize = find_in_class(t.as_slice(), CharClass::Whitespace, 0);
    if stop >= n {
        return CueCommand::Ignored;
    }
    let head: Vec<char> = part(t.as_slice(), 0, stop);
    let cmd: Vec<char> = to_ascii_upper(head.as_slice());
    let rest: Vec<char> = part(t.as_slice(), stop, n);
    let val: Vec<char> = trimmed(rest.as_slice(), CharClass::Whitespace);
    let cmd = cmd.as_slice();
    let val = val.as_slice();
    if is_literal(cmd, "PERFORMER") {
        CueCommand::Performer(trim_quotes(val))
    } else if is_literal(cmd, "TITLE") {
        CueCommand::Title(trim_quotes(val))
    } else if is_literal(cmd, "FILE") {
        CueCommand::File(file_reference_of(val))
    } else if is_literal(cmd, "TRACK") {
        let w: Vec<Vec<char>> = split_words(val);
        assert(texts(w@).len() == w@.len());
        if w.len() > 0 {
            assert(texts(w@)[0] == w@[0]@);
            CueCommand::Track(parse_u16(w[0].as_slice()))
        } else {
            CueCommand::Track(None)
        }
    } else if is_literal(cmd, "INDEX") {
        index_command(val)
    } else {
        CueCommand::Ignored
    }
}

// ---------------------------------------------------------------------------
// Sheets
// ---------------------------------------------------------------------------

/// A track as its commands describe it.
pub struct RawTrackView {
    pub num: int,
    pub title: Option<Seq<char>>,
    pub artist: Option<Seq<char>>,
    pub path: Seq<char>,
    pub index0: Option<u32>,
    pub index1: Option<u32>,
}

/// A sheet as far as its commands were taken in.
pub struct RawSheetView {
    pub title: Option<Seq<char>>,
    pub performer: Option<Seq<char>>,
    /// The file of the tracks to come.
    pub file: Option<Seq<char>>,
    /// Files that were named so far.
    pub files: int,
    pub tracks: Seq<RawTrackView>,
}

impl RawSheetView {
    /// A sheet without a command.
    pub open spec fn empty() -> RawSheetView {
        RawSheetView { title: None, performer: None, file: None, files: 0, tracks: Seq::empty() }
    }

    /// The sheet with its last track replaced.
    pub open spec fn with_last(self, track: RawTrackView) -> RawSheetView {
        RawSheetView { tracks: self.tracks.update(self.tracks.len() - 1, track), ..self }
    }

    /// The sheet after another line. What names a title or a performer is about
    /// the last track, and about the whole sheet before the first one. `resolved`
    /// are the files that the `FILE` commands mean, in order.
    pub open spec fn after(self, line: CueLine, base: Seq<char>, resolved: Seq<Seq<char>>) -> Self {
        let last = self.tracks.last();
        match line {
            CueLine::Performer(t) => if self.tracks.len() > 0 {
                self.with_last(RawTrackView { artist: Some(t), ..last })
            } else {
                RawSheetView { performer: Some(t), ..self }
            },
            CueLine::Title(t) => if self.tracks.len() > 0 {
                self.with_last(RawTrackView { title: Some(t), ..last })
            } else {
                RawSheetView { title: Some(t), ..self }
            },
            CueLine::File(_) => RawSheetView {
                file: Some(resolved[self.files]),
                files: self.files + 1,
                ..self
            },
            CueLine::Track(num) => RawSheetView {
                tracks: self.tracks.push(
                    RawTrackView {
                        num: match num {
                            Some(n) => n,
                            None => (self.tracks.len() as int + 1) % 0x1_0000,
                        },
                        title: None,
                        artist: None,
                        path: match self.file {
                            Some(f) => f,
                            None => join(base, "unknown.audio"@),
                        },
                        index0: None,
                        index1: None,
                    },
                ),
                ..self
            },
            CueLine::Index0(n) => if self.tracks.len() > 0 {
                self.with_last(RawTrackView { index0: Some(n as u32), ..last })
            } else {
                self
            },
            CueLine::Index1(n) => if self.tracks.len() > 0 {
                self.with_last(RawTrackView { index1: Some(n as u32), ..last })
            } else {
                self
            },
            CueLine::Ignored => self,
        }
    }
}

/// The sheet after its first `n` lines.
pub open spec fn sheet_after(
    lines: Seq<Seq<char>>,
    n: int,
    base: Seq<char>,
    resolved: Seq<Seq<char>>,
) -> RawSheetView
    decreases n,
{
    if n <= 0 {
        RawSheetView::empty()
    } else {
        sheet_after(lines, n - 1, base, resolved).after(cue_line(lines[n - 1]), base, resolved)
    }
}

/// The files that the first `n` lines name.
pub open spec fn file_references(lines: Seq<Seq<char>>, n: int) -> Seq<Seq<char>>
    decreases n,
{
    if n <= 0 {
        Seq::empty()
    } else {
        match cue_line(lines[n - 1]) {
            CueLine::File(t) => file_references(lines, n - 1).push(t),
            _ => file_references(lines, n - 1),
        }
    }
}

/// The lines of a text.
pub open spec fn lines_of(content: Seq<char>) -> Seq<Seq<char>> {
    split(content, '\n')
}

/// The files that a sheet names.
pub open spec fn all_references(content: Seq<char>) -> Seq<Seq<char>> {
    file_references(lines_of(content), lines_of(content).len() as int)
}

/// A sheet, all of its commands taken in.
pub open spec fn raw_sheet(
    content: Seq<char>,
    base: Seq<char>,
    resolved: Seq<Seq<char>>,
) -> RawSheetView {
    sheet_after(lines_of(content), lines_of(content).len() as int, base, resolved)
}

/// The texts that a vector of strings holds.
pub open spec fn strings(v: Seq<String>) -> Seq<Seq<char>> {
    v.map_values(|s: String| s@)
}

struct RawTrack {
    num: u16,
    title: Option<Vec<char>>,
    artist: Option<Vec<char>>,
    path: Vec<char>,
    index0: Option<u32>,
    index1: Option<u32>,
}

impl RawTrack {
    spec fn raw(self) -> RawTrackView {
        RawTrackView {
            num: self.num as int,
            title: text_of(self.title),
            artist: text_of(self.artist),
            path: self.path@,
            index0: self.index0,
            index1: self.index1,
        }
    }
}

struct RawSheet {
    title: Option<Vec<char>>,
    performer: Option<Vec<char>>,
    file: Option<Vec<char>>,
    files: usize,
    tracks: Vec<RawTrack>,
}

impl RawSheet {
    spec fn raw(self) -> RawSheetView {
        RawSheetView {
            title: text_of(self.title),
            performer: text_of(self.performer),
            file: text_of(self.file),
            files: self.files as int,
            tracks: self.tracks@.map_values(|t: RawTrack| t.raw()),
        }
    }

    fn take(&mut self, command: CueCommand, base: &[char], resolved: &Vec<String>)
        requires
            command is File ==> old(self).files < resolved@.len(),
        ensures
            final(self).raw() == old(self).raw().after(command@, base@, strings(resolved@)),
    {
        let n: usize = self.tracks.len();
        let ghost before = self.raw();
        let ghost want = before.after(command@, base@, strings(resolved@));
        match command {
            CueCommand::Performer(t) => {
                if n > 0 {
                    self.tracks[n - 1].artist = Some(t);
                } else {
                    self.performer = Some(t);
                }
            },
            CueCommand::Title(t) => {
                if n > 0 {
                    self.tracks[n - 1].title = Some(t);
                } else {
                    self.title = Some(t);
                }
            },
            CueCommand::File(_) => {
                let at: usize = self.files;
                assert(strings(resolved@)[at as int] == resolved@[at as int]@);
                self.file = Some(to_chars(resolved[at].as_str()));
                assert(at < resolved.len());
                self.files = at + 1;
            },
            CueCommand::Track(num) => {
                let num: u16 = match num {
                    Some(k) => k,
                    None => next_number(n),
                };
                let path: Vec<char> = match &self.file {
                    Some(f) => {
                        let copy: Vec<char> = part(f.as_slice(), 0, f.len());
                        assert(copy@ =~= f@);
                        copy
                    },
                    None => {
                        let unknown: Vec<char> = to_chars("unknown.audio");
                        path_join(base, unknown.as_slice())
                    },
                };
                self.tracks.push(
                    RawTrack { num, title: None, artist: None, path, index0: None, index1: None },
                );
            },
            CueCommand::Index0(frames) => {
                if n > 0 {
                    self.tracks[n - 1].index0 = Some(frames);
                }
            },
            CueCommand::Index1(frames) => {
                if n > 0 {
                    self.tracks[n - 1].index1 = Some(frames);
                }
            },
            CueCommand::Ignored => {},
        }
        assert(self.raw().tracks =~= want.tracks);
    }
}

/// The number of a track that has none: one more than there are tracks, of 16
/// bits.
fn next_number(tracks: usize) -> (r: u16)
    ensures
        r == (tracks + 1) % 0x1_0000,
{
    let low: usize = tracks % 0x1_0000;
    if low == 0xffff {
        0
    } else {
        (low + 1) as u16
    }
}

/// A track of a cue sheet.
pub struct CueTrack {
    pub track_num: u16,
    pub title: Option<String>,
    pub artist: Option<String>,
    pub album: Option<String>,
    /// The file that holds the track.
    pub physical_path: String,
    /// Frames at which the gap before the track begins.
    pub index0_frames: Option<u32>,
    /// Frames at which the track begins.
    pub cue_start_frames: u32,
    /// Frames that the track lasts; `None` for the rest of the file.
    pub cue_duration_frames: Option<u32>,
    pub virtual_path: String,
}

/// A cue sheet.
pub struct CueSheet {
    pub global_title: Option<String>,
    pub global_performer: Option<String>,
    pub tracks: Vec<CueTrack>,
}

/// An optional string as its characters.
pub open spec fn string_of(s: Option<String>) -> Option<Seq<char>> {
    match s {
        Some(t) => Some(t@),
        None => None,
    }
}

/// Frames at which a track begins.
pub open spec fn start_of(track: RawTrackView) -> u32 {
    match track.index1 {
        Some(n) => n,
        None => 0,
    }
}

/// Whether a track and the next one lie in the same file.
pub open spec fn same_sheet_path(sheet: RawSheetView, i: int) -> bool {
    same_path(sheet.tracks[i + 1].path, sheet.tracks[i].path)
}

/// Frames that a track lasts: up to the start of the next one in the same file.
pub open spec fn duration_of(tracks: Seq<RawTrackView>, i: int) -> Option<u32> {
    if i + 1 < tracks.len() && same_path(tracks[i + 1].path, tracks[i].path) {
        let start = start_of(tracks[i]);
        let next = match tracks[i + 1].index1 {
            Some(n) => n,
            None => start,
        };
        Some(
            if next > start {
                (next - start) as u32
            } else {
                0
            },
        )
    } else {
        None
    }
}

/// Whether a track is what the commands of its sheet describe.
pub open spec fn is_track(track: CueTrack, sheet: RawSheetView, i: int) -> bool {
    let raw = sheet.tracks[i];
    let duration = duration_of(sheet.tracks, i);
    &&& track.track_num == raw.num
    &&& string_of(track.title) == raw.title
    &&& string_of(track.artist) == if raw.artist is Some {
        raw.artist
    } else {
        sheet.performer
    }
    &&& string_of(track.album) == sheet.title
    &&& track.physical_path@ == raw.path
    &&& track.index0_frames == raw.index0
    &&& track.cue_start_frames == start_of(raw)
    &&& track.cue_duration_frames == duration
    &&& track.virtual_path@ == virtual_path_of(
        raw.path,
        start_of(raw) as int,
        if duration is Some {
            duration->0 as int
        } else {
            0
        },
        raw.num,
    )
}

fn string_from(t: &Option<Vec<char>>) -> (r: Option<String>)
    ensures
        string_of(r) == text_of(*t),
{
    match t {
        Some(v) => Some(to_text(v.as_slice())),
        None => None,
    }
}

impl CueSheet {
    /// The files that a sheet names, in order.
    pub fn file_references(content: &str) -> (r: Vec<String>)
        ensures
            strings(r@) == all_references(content@),
    {
        let chars: Vec<char> = to_chars(content);
        let lines: Vec<Vec<char>> = split_at_char(chars.as_slice(), '\n');
        let ghost all = texts(lines@);
        let n: usize = lines.len();
        let mut r: Vec<String> = Vec::new();
        let mut i: usize = 0;
        assert(strings(r@) =~= file_references(all, 0));
        while i < n
            invariant
                i <= n,
                n == lines@.len(),
                all == texts(lines@),
                strings(r@) == file_references(all, i as int),
            decreases n - i,
        {
            assert(all[i as int] == lines@[i as int]@);
            let ghost before = r@;
            if let CueCommand::File(t) = parse_cue_line(lines[i].as_slice()) {
                let name: String = to_text(t.as_slice());
                r.push(name);
                assert(strings(r@) =~= strings(before).push(t@));
            }
            i += 1;
        }
        r
    }

    /// Reads a sheet that lies in `base_dir`. `resolved` are the files that its
    /// `FILE` commands mean, in order.
    pub fn parse_str(content: &str, base_dir: &str, resolved: &Vec<String>) -> (r: Self)
        requires
            resolved@.len() == all_references(content@).len(),
        ensures
            ({
                let sheet = raw_sheet(content@, base_dir@, strings(resolved@));
                &&& string_of(r.global_title) == sheet.title
                &&& string_of(r.global_performer) == sheet.performer
                &&& r.tracks@.len() == sheet.tracks.len()
                &&& forall|i: int|
                    0 <= i < sheet.tracks.len() ==> #[trigger] is_track(r.tracks@[i], sheet, i)
            }),
    {
        let chars: Vec<char> = to_chars(content);
        let base: Vec<char> = to_chars(base_dir);
        let lines: Vec<Vec<char>> = split_at_char(chars.as_slice(), '\n');
        let ghost all = texts(lines@);
        let ghost files = strings(resolved@);
        let n: usize = lines.len();
        let mut sheet = RawSheet {
            title: None,
            performer: None,
            file: None,
            files: 0,
            tracks: Vec::new(),
        };
        let mut i: usize = 0;
        assert(sheet.raw().tracks =~= RawSheetView::empty().tracks);
        while i < n
            invariant
                i <= n,
                n == lines@.len(),
                all == texts(lines@),
                all == lines_of(content@),
                files == strings(resolved@),
                base@ == base_dir@,
                resolved@.len() == file_references(all, n as int).len(),
                sheet.raw() == sheet_after(all, i as int, base@, files),
                sheet.files == file_references(all, i as int).len(),
            decreases n - i,
        {
            assert(all[i as int] == lines@[i as int]@);
            let command = parse_cue_line(lines[i].as_slice());
            proof {
                lemma_references_grow(all, i + 1, n as int);
            }
            sheet.take(command, base.as_slice(), resolved);
            i += 1;
        }
        Self::finish(&sheet)
    }

    fn finish(sheet: &RawSheet) -> (r: Self)
        ensures
            string_of(r.global_title) == sheet.raw().title,
            string_of(r.global_performer) == sheet.raw().performer,
            r.tracks@.len() == sheet.raw().tracks.len(),
            forall|i: int|
                0 <= i < sheet.raw().tracks.len() ==> #[trigger] is_track(
                    r.tracks@[i],
                    sheet.raw(),
                    i,
                ),
    {
        let n: usize = sheet.tracks.len();
        let ghost raw = sheet.raw();
        let mut tracks: Vec<CueTrack> = Vec::new();
        let mut i: usize = 0;
        while i < n
            invariant
                i <= n,
                n == sheet.tracks@.len(),
                raw == sheet.raw(),
                tracks@.len() == i,
                forall|k: int| 0 <= k < i ==> #[trigger] is_track(tracks@[k], raw, k),
            decreases n - i,
        {
            let track: &RawTrack = &sheet.tracks[i];
            assert(raw.tracks[i as int] == track.raw());
            let start: u32 = match track.index1 {
                Some(frames) => frames,
                None => 0,
            };
            let mut duration: Option<u32> = None;
            if i + 1 < n {
                let next: &RawTrack = &sheet.tracks[i + 1];
                assert(raw.tracks[i + 1] == next.raw());
                if paths_same(next.path.as_slice(), track.path.as_slice()) {
                    let next_start: u32 = match next.index1 {
                        Some(frames) => frames,
                        None => start,
                    };
                    duration = Some(
                        if next_start > start {
                            next_start - start
                        } else {
                            0
                        },
                    );
                }
            }
            let physical_path: String = to_text(track.path.as_slice());
            let length: u32 = match duration {
                Some(frames) => frames,
                None => 0,
            };
            let virtual_path: String = cue_virtual_path(
                physical_path.as_str(),
                start,
                length,
                track.num,
            );
            let artist: Option<String> = match &track.artist {
                Some(v) => Some(to_text(v.as_slice())),
                None => string_from(&sheet.performer),
            };
            let made = CueTrack {
                track_num: track.num,
                title: string_from(&track.title),
                artist,
                album: string_from(&sheet.title),
                physical_path,
                index0_frames: track.index0,
                cue_start_frames: start,
                cue_duration_frames: duration,
                virtual_path,
            };
            assert(is_track(made, raw, i as int));
            let ghost before = tracks@;
            tracks.push(made);
            assert forall|k: int| 0 <= k < i + 1 implies #[trigger] is_track(
                tracks@[k],
                raw,
                k,
            ) by {
                if k < i {
                    assert(tracks@[k] == before[k]);
                    assert(is_track(before[k], raw, k));
                }
            }
            i += 1;
        }
        CueSheet {
            global_title: string_from(&sheet.title),
            global_performer: string_from(&sheet.performer),
            tracks,
        }
    }
}

proof fn lemma_references_grow(lines: Seq<Seq<char>>, i: int, n: int)
    requires
        0 <= i <= n,
    ensures
        file_references(lines, i).len() <= file_references(lines, n).len(),
    decreases n - i,
{
    if i < n {
        lemma_references_grow(lines, i, n - 1);
    }
}

/// Tracks of one file follow each other without a gap or an overlap: where the
/// next one starts no earlier, a track ends where the next one starts.
pub proof fn law_tracks_of_a_file_join(tracks: Seq<RawTrackView>, i: int)
    requires
        0 <= i,
        i + 1 < tracks.len(),
        same_path(tracks[i + 1].path, tracks[i].path),
        tracks[i + 1].index1 is Some,
        start_of(tracks[i]) <= start_of(tracks[i + 1]),
    ensures
        duration_of(tracks, i) is Some,
        start_of(tracks[i]) + duration_of(tracks, i)->0 == start_of(tracks[i + 1]),
{
}

} // verus!
