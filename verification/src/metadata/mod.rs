//! Tags of audio files: lookup, cleaning, repair of texts in the wrong encoding,
//! and what a path tells where tags are missing.

pub mod cover;
pub mod cover_laws;
pub mod folder_cover;
pub mod laws;

use vstd::prelude::*;

use crate::cue::parser::string_of;
use crate::encoding::{decodable, decode_labelled, decoding, guess_encoding, guessed_encoding};
use crate::number::{is_digit, is_real, parse_u16, reads_as_real, unsigned_value};
use crate::path::{file_stem, name_back, path_file_stem, path_name_back, text_of};
use crate::text::{
    ascii_lower_all, is_literal, part, same, to_ascii_lower, to_chars, to_text, trim, trim_start,
    trim_ws, trimmed, trimmed_start, CharClass,
};

verus! {

/// Basic parameters of an audio stream.
#[derive(Debug, Clone, Copy, PartialEq, Eq, Structural)]
pub struct StreamInfo {
    pub bit_rate: i64,
    pub sample_rate: u32,
    pub bits_per_sample: u32,
    pub channels: u32,
}

/// Tags of a file.
pub struct Tags {
    pub title: Option<String>,
    pub artist: Option<String>,
    pub album: Option<String>,
    pub track: Option<u16>,
    pub comment: Option<String>,
}

/// Tags as texts.
#[verifier::ext_equal]
pub struct TagsView {
    pub title: Option<Seq<char>>,
    pub artist: Option<Seq<char>>,
    pub album: Option<Seq<char>>,
    pub track: Option<u16>,
    pub comment: Option<Seq<char>>,
}

impl View for Tags {
    type V = TagsView;

    open spec fn view(&self) -> TagsView {
        TagsView {
            title: string_of(self.title),
            artist: string_of(self.artist),
            album: string_of(self.album),
            track: self.track,
            comment: string_of(self.comment),
        }
    }
}

fn at_least_zero(n: i32) -> (r: u32)
    ensures
        r == if n > 0 {
            n as int
        } else {
            0
        },
{
    if n > 0 {
        n as u32
    } else {
        0
    }
}

/// The parameters of a stream, as a decoder reports them; negative ones count
/// as 0.
pub fn extract_stream_info(
    bit_rate: i64,
    sample_rate: i32,
    bits_per_sample: i32,
    channels: i32,
) -> (r: StreamInfo)
    ensures
        r.bit_rate == bit_rate,
        r.sample_rate == if sample_rate > 0 {
            sample_rate as int
        } else {
            0
        },
        r.bits_per_sample == if bits_per_sample > 0 {
            bits_per_sample as int
        } else {
            0
        },
        r.channels == if channels > 0 {
            channels as int
        } else {
            0
        },
{
    StreamInfo {
        bit_rate,
        sample_rate: at_least_zero(sample_rate),
        bits_per_sample: at_least_zero(bits_per_sample),
        channels: at_least_zero(channels),
    }
}

// ---------------------------------------------------------------------------
// Container tags
// ---------------------------------------------------------------------------

/// The tags of a container, key and value each.
pub open spec fn entries(dict: Seq<(String, String)>) -> Seq<(Seq<char>, Seq<char>)> {
    dict.map_values(|e: (String, String)| (e.0@, e.1@))
}

/// The value of the first entry at or after `from` whose key is the one given,
/// in whatever case.
pub open spec fn lookup_from(
    dict: Seq<(Seq<char>, Seq<char>)>,
    key: Seq<char>,
    from: int,
) -> Option<Seq<char>>
    decreases dict.len() - from,
{
    if 0 <= from < dict.len() {
        if ascii_lower_all(dict[from].0) == ascii_lower_all(key) {
            Some(dict[from].1)
        } else {
            lookup_from(dict, key, from + 1)
        }
    } else {
        None
    }
}

/// The value of the first entry with a key, in whatever case.
pub open spec fn lookup(dict: Seq<(Seq<char>, Seq<char>)>, key: Seq<char>) -> Option<Seq<char>> {
    lookup_from(dict, key, 0)
}

/// The first of two optional values that is there.
pub open spec fn either<T>(a: Option<T>, b: Option<T>) -> Option<T> {
    if a is Some {
        a
    } else {
        b
    }
}

/// Looks a key up, in whatever case.
pub fn dict_get(dict: &Vec<(String, String)>, key: &str) -> (r: Option<Vec<char>>)
    ensures
        text_of(r) == lookup(entries(dict@), key@),
{
    let key_chars: Vec<char> = to_chars(key);
    let target: Vec<char> = to_ascii_lower(key_chars.as_slice());
    let n: usize = dict.len();
    let ghost all = entries(dict@);
    let mut i: usize = 0;
    while i < n
        invariant
            i <= n,
            n == dict@.len(),
            all == entries(dict@),
            target@ == ascii_lower_all(key@),
            lookup(all, key@) == lookup_from(all, key@, i as int),
        decreases n - i,
    {
        let entry: &(String, String) = &dict[i];
        assert(all[i as int] == (entry.0@, entry.1@));
        let entry_key: Vec<char> = to_chars(entry.0.as_str());
        let lowered: Vec<char> = to_ascii_lower(entry_key.as_slice());
        if same(lowered.as_slice(), target.as_slice()) {
            return Some(to_chars(entry.1.as_str()));
        }
        i += 1;
    }
    None
}

fn text_from(t: Option<Vec<char>>) -> (r: Option<String>)
    ensures
        string_of(r) == text_of(t),
{
    match t {
        Some(v) => Some(to_text(v.as_slice())),
        None => None,
    }
}

/// A track number as a tag writes it.
pub open spec fn track_of(text: Option<Seq<char>>) -> Option<u16> {
    match text {
        Some(t) => match unsigned_value(t, u16::MAX as int) {
            Some(n) => Some(n as u16),
            None => None,
        },
        None => None,
    }
}

/// The common tags of a container.
pub open spec fn container_tags(dict: Seq<(Seq<char>, Seq<char>)>) -> TagsView {
    TagsView {
        title: lookup(dict, "title"@),
        artist: either(lookup(dict, "artist"@), lookup(dict, "album_artist"@)),
        album: lookup(dict, "album"@),
        track: track_of(lookup(dict, "track"@)),
        comment: lookup(dict, "comment"@),
    }
}

/// Reads the common tags of a container.
pub fn extract_tags(dict: &Vec<(String, String)>) -> (r: Tags)
    ensures
        r@ == container_tags(entries(dict@)),
{
    let artist: Option<Vec<char>> = match dict_get(dict, "artist") {
        Some(v) => Some(v),
        None => dict_get(dict, "album_artist"),
    };
    let track: Option<u16> = match dict_get(dict, "track") {
        Some(v) => parse_u16(v.as_slice()),
        None => None,
    };
    Tags {
        title: text_from(dict_get(dict, "title")),
        artist: text_from(artist),
        album: text_from(dict_get(dict, "album")),
        track,
        comment: text_from(dict_get(dict, "comment")),
    }
}

/// A text without a given ending, however often it stands there.
pub open spec fn without_ending(s: Seq<char>, ending: Seq<char>) -> Seq<char>
    decreases s.len(),
{
    if 0 < ending.len() && crate::text::finishes_with(s, ending) {
        without_ending(s.take(s.len() - ending.len()), ending)
    } else {
        s
    }
}

fn drop_ending(s: Vec<char>, ending: &str) -> (r: Vec<char>)
    ensures
        r@ == without_ending(s@, ending@),
{
    let e: Vec<char> = to_chars(ending);
    let mut s: Vec<char> = s;
    let ghost start = s@;
    if e.len() == 0 {
        return s;
    }
    while s.len() >= e.len()
        invariant_except_break
            without_ending(start, ending@) == without_ending(s@, ending@),
        invariant
            e@ == ending@,
            e@.len() > 0,
        ensures
            without_ending(start, ending@) == s@,
        decreases s@.len(),
    {
        let at: usize = s.len() - e.len();
        if !crate::text::text_occurs_at(s.as_slice(), e.as_slice(), at) {
            break;
        }
        let shorter: Vec<char> = part(s.as_slice(), 0, at);
        assert(shorter@ =~= s@.take(s@.len() - ending@.len()));
        s = shorter;
    }
    s
}

/// The unit of a loudness correction.
#[derive(Debug, Clone, Copy, PartialEq, Eq, Structural)]
pub enum GainUnit {
    /// 256ths of a decibel.
    Decibel256ths,
    Decibels,
}

/// A loudness correction: a number, as written, and its unit.
pub struct GainText {
    pub number: String,
    pub unit: GainUnit,
}

/// A text that reads as a number, or nothing.
pub open spec fn only_real(text: Option<Seq<char>>) -> Option<Seq<char>> {
    match text {
        Some(t) if is_real(t) => Some(t),
        _ => None,
    }
}

/// The number of a loudness correction in 256ths of a decibel, where the tags
/// hold one: the track's, or else the album's.
pub open spec fn r128_number(d: Seq<(Seq<char>, Seq<char>)>) -> Option<Seq<char>> {
    only_real(
        match either(lookup(d, "R128_TRACK_GAIN"@), lookup(d, "R128_ALBUM_GAIN"@)) {
            Some(t) => Some(trim_ws(t)),
            None => None,
        },
    )
}

/// The number of a loudness correction in decibels, without its unit, where the
/// tags hold one: the track's, or else the album's.
pub open spec fn decibel_number(d: Seq<(Seq<char>, Seq<char>)>) -> Option<Seq<char>> {
    only_real(
        match either(lookup(d, "replaygain_track_gain"@), lookup(d, "replaygain_album_gain"@)) {
            Some(t) => Some(without_ending(without_ending(trim_ws(t), " dB"@), "dB"@)),
            None => None,
        },
    )
}

/// Reads the loudness correction of the tags: the one in 256ths of a decibel
/// comes first, the one in decibels where that is missing or no number.
pub fn extract_replay_gain(dict: &Vec<(String, String)>) -> (r: Option<GainText>)
    ensures
        ({
            let d = entries(dict@);
            match r {
                Some(gain) => match gain.unit {
                    GainUnit::Decibel256ths => r128_number(d) == Some(gain.number@),
                    GainUnit::Decibels => r128_number(d) is None && decibel_number(d) == Some(
                        gain.number@,
                    ),
                },
                None => r128_number(d) is None && decibel_number(d) is None,
            }
        }),
{
    let r128: Option<Vec<char>> = match dict_get(dict, "R128_TRACK_GAIN") {
        Some(v) => Some(v),
        None => dict_get(dict, "R128_ALBUM_GAIN"),
    };
    if let Some(v) = r128 {
        let number: Vec<char> = trimmed(v.as_slice(), CharClass::Whitespace);
        if reads_as_real(number.as_slice()) {
            return Some(
                GainText { number: to_text(number.as_slice()), unit: GainUnit::Decibel256ths },
            );
        }
    }
    let gain: Option<Vec<char>> = match dict_get(dict, "replaygain_track_gain") {
        Some(v) => Some(v),
        None => dict_get(dict, "replaygain_album_gain"),
    };
    if let Some(v) = gain {
        let number: Vec<char> = trimmed(v.as_slice(), CharClass::Whitespace);
        let number: Vec<char> = drop_ending(number, " dB");
        let number: Vec<char> = drop_ending(number, "dB");
        if reads_as_real(number.as_slice()) {
            return Some(
                GainText { number: to_text(number.as_slice()), unit: GainUnit::Decibels },
            );
        }
    }
    None
}

// ---------------------------------------------------------------------------
// Texts in the wrong encoding
// ---------------------------------------------------------------------------

/// Whether every character is one of the first 256.
pub open spec fn all_latin1(s: Seq<char>) -> bool {
    forall|i: int| 0 <= i < s.len() ==> (#[trigger] s[i] as u32) <= 255
}

/// Whether every character is one of the first 256, and not all are ASCII.
pub open spec fn is_latin1(s: Seq<char>) -> bool {
    all_latin1(s) && exists|i: int| 0 <= i < s.len() && (#[trigger] s[i] as u32) >= 0x80
}

/// Tests whether every character is one of the first 256, and not all ASCII.
pub fn is_pure_latin1(s: &[char]) -> (r: bool)
    ensures
        r == is_latin1(s@),
{
    let n: usize = s.len();
    let mut has_high: bool = false;
    let mut i: usize = 0;
    while i < n
        invariant
            i <= n,
            n == s@.len(),
            forall|k: int| 0 <= k < i ==> (#[trigger] s@[k] as u32) <= 255,
            has_high == exists|k: int| 0 <= k < i && (#[trigger] s@[k] as u32) >= 0x80,
        decreases n - i,
    {
        let code: u32 = s[i] as u32;
        if code > 255 {
            assert(s@[i as int] as u32 > 255);
            return false;
        }
        if code >= 0x80 {
            assert(s@[i as int] as u32 >= 0x80);
            has_high = true;
        }
        i += 1;
    }
    has_high
}

/// Whether a character is what two bytes of GBK look like when read as UTF-8:
/// real tags hardly ever hold one.
pub open spec fn is_mojibake(c: char) -> bool {
    0x0180 <= c as u32 <= 0x02af
}

/// Tests whether a character is what two bytes of GBK look like as UTF-8.
pub fn is_gbk_as_utf8_mojibake_char(c: char) -> (r: bool)
    ensures
        r == is_mojibake(c),
{
    let code: u32 = c as u32;
    0x0180 <= code && code <= 0x02af
}

/// The bytes that characters of the first 256 stand for.
pub open spec fn latin1_bytes(s: Seq<char>) -> Seq<u8> {
    s.map_values(|c: char| (c as u32) as u8)
}

/// Number of bytes beyond ASCII.
pub open spec fn high_bytes(b: Seq<u8>) -> int
    decreases b.len(),
{
    if b.len() == 0 {
        0
    } else {
        high_bytes(b.drop_last()) + if b.last() >= 0x80 {
            1int
        } else {
            0
        }
    }
}

/// Whether two bytes can be a character of GBK.
pub open spec fn is_gbk_pair(a: u8, b: u8) -> bool {
    0x81 <= a <= 0xfe && (0x40 <= b <= 0x7e || 0x80 <= b <= 0xfe)
}

/// Pairs of bytes that can be characters of GBK, and bytes in such pairs or
/// beyond ASCII, from `from` on.
pub open spec fn gbk_counts(b: Seq<u8>, from: int) -> (int, int)
    decreases b.len() - from,
{
    if 0 <= from < b.len() {
        if b[from] < 0x80 {
            gbk_counts(b, from + 1)
        } else if from + 1 < b.len() && is_gbk_pair(b[from], b[from + 1]) {
            let (pairs, total) = gbk_counts(b, from + 2);
            (pairs + 1, total + 2)
        } else {
            let (pairs, total) = gbk_counts(b, from + 1);
            (pairs, total + 1)
        }
    } else {
        (0, 0)
    }
}

/// Whether bytes look like GBK: at least seven in ten of those that count are in
/// pairs.
pub open spec fn looks_like_gbk(b: Seq<u8>) -> bool {
    let (pairs, total) = gbk_counts(b, 0);
    total > 0 && pairs * 20 >= total * 7
}

/// Tests whether bytes look like GBK.
pub fn resembles_gbk(b: &[u8]) -> (r: bool)
    requires
        decodable(b@.len() as int),
    ensures
        r == looks_like_gbk(b@),
{
    let n: usize = b.len();
    let mut pairs: u64 = 0;
    let mut total: u64 = 0;
    let mut i: usize = 0;
    let ghost (all_pairs, all_total) = gbk_counts(b@, 0);
    while i < n
        invariant
            i <= n,
            n == b@.len(),
            pairs <= i,
            total <= i,
            4 * n <= isize::MAX,
            gbk_counts(b@, 0) == (all_pairs, all_total),
            ({
                let (p, t) = gbk_counts(b@, i as int);
                pairs + p == all_pairs && total + t == all_total
            }),
        decreases n - i,
    {
        let c1: u8 = b[i];
        if c1 >= 0x80 {
            total += 1;
            if i + 1 < n {
                let c2: u8 = b[i + 1];
                if c1 >= 0x81 && c1 <= 0xfe && ((c2 >= 0x40 && c2 <= 0x7e) || (c2 >= 0x80 && c2
                    <= 0xfe)) {
                    pairs += 1;
                    i += 1;
                    total += 1;
                }
            }
        }
        i += 1;
    }
    let wide_pairs: u128 = pairs as u128 * 20;
    let wide_total: u128 = total as u128 * 7;
    total > 0 && wide_pairs >= wide_total
}

/// A text decoded anew in place of another: trimmed; refused where it is empty
/// or the same.
pub open spec fn accepted_text(raw: Seq<char>, decoded: Option<(Seq<char>, bool)>) -> Option<
    Seq<char>,
> {
    match decoded {
        Some((text, malformed)) => {
            let t = trim_ws(trim(text, CharClass::Only('\0')));
            if !malformed && t.len() > 0 && t != raw {
                Some(t)
            } else {
                None
            }
        },
        None => None,
    }
}

/// Settles whether a text decoded anew is taken in place of another.
pub fn accept_decoding(raw: &[char], decoded: &Option<(String, bool)>) -> (r: Option<Vec<char>>)
    ensures
        text_of(r) == accepted_text(raw@, crate::encoding::decoded_view(*decoded)),
{
    match decoded {
        Some((text, malformed)) => {
            let chars: Vec<char> = to_chars(text.as_str());
            let inner: Vec<char> = trimmed(chars.as_slice(), CharClass::Only('\0'));
            let t: Vec<char> = trimmed(inner.as_slice(), CharClass::Whitespace);
            if !*malformed && t.len() > 0 && !same(t.as_slice(), raw) {
                Some(t)
            } else {
                None
            }
        },
        None => None,
    }
}

/// The text that was meant where bytes of a Chinese encoding were stored one to
/// a character: as GB18030 where they look like it, else as GBK, else in the
/// encoding that they are guessed to be in. `None` where the text is not such a
/// one.
pub open spec fn repaired(text: Seq<char>) -> Option<Seq<char>> {
    let b = latin1_bytes(text);
    if !all_latin1(text) || high_bytes(b) < 2 {
        None
    } else {
        let first = if looks_like_gbk(b) {
            accepted_text(text, decoding("gb18030"@, b))
        } else {
            None
        };
        let second = accepted_text(text, decoding("gbk"@, b));
        let third = accepted_text(text, decoding(guessed_encoding(b), b));
        either(first, either(second, third))
    }
}

fn to_latin1(s: &[char]) -> (r: Option<Vec<u8>>)
    ensures
        match r {
            Some(b) => all_latin1(s@) && b@ == latin1_bytes(s@),
            None => !all_latin1(s@),
        },
{
    let n: usize = s.len();
    let mut b: Vec<u8> = Vec::new();
    let mut i: usize = 0;
    while i < n
        invariant
            i <= n,
            n == s@.len(),
            forall|k: int| 0 <= k < i ==> (#[trigger] s@[k] as u32) <= 255,
            b@ == latin1_bytes(s@).take(i as int),
        decreases n - i,
    {
        let code: u32 = s[i] as u32;
        if code > 255 {
            assert(s@[i as int] as u32 > 255);
            return None;
        }
        b.push(code as u8);
        assert(b@ =~= latin1_bytes(s@).take(i + 1));
        i += 1;
    }
    assert(b@ =~= latin1_bytes(s@));
    Some(b)
}

fn count_high(b: &[u8]) -> (r: usize)
    ensures
        r == high_bytes(b@),
{
    let n: usize = b.len();
    let mut count: usize = 0;
    let mut i: usize = 0;
    assert(b@.take(0) =~= Seq::empty());
    while i < n
        invariant
            i <= n,
            n == b@.len(),
            count <= i,
            count == high_bytes(b@.take(i as int)),
        decreases n - i,
    {
        assert(b@.take(i + 1).drop_last() =~= b@.take(i as int));
        if b[i] >= 0x80 {
            count += 1;
        }
        i += 1;
    }
    assert(b@.take(n as int) =~= b@);
    count
}

/// Decodes a text whose characters are bytes of a Chinese encoding.
pub fn decode_latin1_as_gbk(text: &[char]) -> (r: Option<Vec<char>>)
    requires
        decodable(text@.len() as int),
    ensures
        text_of(r) == repaired(text@),
{
    let bytes: Vec<u8> = match to_latin1(text) {
        Some(bytes) => bytes,
        None => {
            return None;
        },
    };
    if count_high(bytes.as_slice()) < 2 {
        return None;
    }
    if resembles_gbk(bytes.as_slice()) {
        let decoded = decode_labelled("gb18030", bytes.as_slice());
        if let Some(t) = accept_decoding(text, &decoded) {
            return Some(t);
        }
    }
    let decoded = decode_labelled("gbk", bytes.as_slice());
    if let Some(t) = accept_decoding(text, &decoded) {
        return Some(t);
    }
    let label: String = guess_encoding(bytes.as_slice());
    let decoded = decode_labelled(label.as_str(), bytes.as_slice());
    accept_decoding(text, &decoded)
}

/// Whether a text is beyond repair: it holds the character that stands for lost
/// ones, or what GBK looks like as UTF-8.
pub open spec fn is_spoilt(s: Seq<char>) -> bool {
    exists|i: int| 0 <= i < s.len() && (#[trigger] s[i] == '\u{fffd}' || is_mojibake(s[i]))
}

fn spoilt(s: &[char]) -> (r: bool)
    ensures
        r == is_spoilt(s@),
{
    let n: usize = s.len();
    let mut i: usize = 0;
    while i < n
        invariant
            i <= n,
            n == s@.len(),
            forall|k: int|
                0 <= k < i ==> #[trigger] s@[k] != '\u{fffd}' && !is_mojibake(s@[k]),
        decreases n - i,
    {
        let c: char = s[i];
        if c == '\u{fffd}' || is_gbk_as_utf8_mojibake_char(c) {
            assert(s@[i as int] == '\u{fffd}' || is_mojibake(s@[i as int]));
            return true;
        }
        i += 1;
    }
    false
}

/// What becomes of the text of a tag, given what repair would make of it.
pub open spec fn cleaned_with(text: Seq<char>, repair: Option<Seq<char>>) -> Option<Seq<char>> {
    let t = trim_ws(text);
    if t.len() == 0 || is_spoilt(t) {
        None
    } else if is_latin1(t) && repair is Some {
        repair
    } else {
        Some(t)
    }
}

/// What becomes of the text of a tag: trimmed, dropped where it is empty or
/// beyond repair, and repaired where it can be.
pub open spec fn cleaned(text: Seq<char>) -> Option<Seq<char>> {
    cleaned_with(text, repaired(trim_ws(text)))
}

/// Cleans the text of a tag, given what repair made of it where it was tried.
pub fn clean_tag_with(text: &[char], repair: Option<Vec<char>>) -> (r: Option<Vec<char>>)
    ensures
        text_of(r) == cleaned_with(text@, text_of(repair)),
{
    let t: Vec<char> = trimmed(text, CharClass::Whitespace);
    if t.len() == 0 || spoilt(t.as_slice()) {
        return None;
    }
    if is_pure_latin1(t.as_slice()) {
        if let Some(better) = repair {
            return Some(better);
        }
    }
    Some(t)
}

/// Cleans and repairs the text of a tag.
pub fn clean_and_repair_tag(text: String) -> (r: Option<String>)
    requires
        decodable(text@.len() as int),
    ensures
        string_of(r) == cleaned(text@),
{
    let chars: Vec<char> = to_chars(text.as_str());
    clean_chars(chars.as_slice())
}

fn clean_chars(chars: &[char]) -> (r: Option<String>)
    requires
        decodable(chars@.len() as int),
    ensures
        string_of(r) == cleaned(chars@),
{
    let t: Vec<char> = trimmed(chars, CharClass::Whitespace);
    proof {
        lemma_trim_shortens(chars@, CharClass::Whitespace);
    }
    let repair: Option<Vec<char>> = if is_pure_latin1(t.as_slice()) {
        decode_latin1_as_gbk(t.as_slice())
    } else {
        None
    };
    text_from(clean_tag_with(chars, repair))
}

proof fn lemma_trim_shortens(s: Seq<char>, class: CharClass)
    ensures
        trim(s, class).len() <= s.len(),
{
    lemma_trim_start_shortens(s, class);
    lemma_trim_end_shortens(trim_start(s, class), class);
}

proof fn lemma_trim_start_shortens(s: Seq<char>, class: CharClass)
    ensures
        trim_start(s, class).len() <= s.len(),
    decreases s.len(),
{
    if s.len() > 0 && class.has(s[0]) {
        lemma_trim_start_shortens(s.drop_first(), class);
    }
}

proof fn lemma_trim_end_shortens(s: Seq<char>, class: CharClass)
    ensures
        crate::text::trim_end(s, class).len() <= s.len(),
    decreases s.len(),
{
    if s.len() > 0 && class.has(s.last()) {
        lemma_trim_end_shortens(s.drop_last(), class);
    }
}

// ---------------------------------------------------------------------------
// What a path tells
// ---------------------------------------------------------------------------

/// Number of digits at the start of a text.
pub open spec fn leading_digits(s: Seq<char>) -> int
    decreases s.len(),
{
    if s.len() > 0 && is_digit(s[0]) {
        1 + leading_digits(s.drop_first())
    } else {
        0
    }
}

/// A name without the track number in front of it: one to three digits, and the
/// separators after them.
pub open spec fn without_number(s: Seq<char>) -> Seq<char> {
    let n = leading_digits(s);
    let rest = trim_start(s.skip(n), CharClass::TitleSeparator);
    if 0 < n <= 3 && rest.len() > 0 {
        rest
    } else {
        s
    }
}

/// The title that the name of a file tells.
pub open spec fn title_from_path(path: Seq<char>) -> Option<Seq<char>> {
    match file_stem(path) {
        Some(stem) => {
            let t = without_number(trim_ws(stem));
            if t.len() > 0 {
                Some(t)
            } else {
                None
            }
        },
        None => None,
    }
}

fn count_digits(s: &[char]) -> (r: usize)
    ensures
        r == leading_digits(s@),
        r <= s@.len(),
{
    let n: usize = s.len();
    let mut i: usize = 0;
    assert(s@.skip(0) =~= s@);
    while i < n && '0' <= s[i] && s[i] <= '9'
        invariant
            i <= n,
            n == s@.len(),
            leading_digits(s@) == i + leading_digits(s@.skip(i as int)),
        decreases n - i,
    {
        assert(s@.skip(i as int).drop_first() =~= s@.skip(i + 1));
        i += 1;
    }
    i
}

/// Reads a title off the name of a file.
pub fn clean_title_from_filename(path: &str) -> (r: Option<String>)
    ensures
        string_of(r) == title_from_path(path@),
{
    let chars: Vec<char> = to_chars(path);
    let stem: Vec<char> = match path_file_stem(chars.as_slice()) {
        Some(stem) => stem,
        None => {
            return None;
        },
    };
    let s: Vec<char> = trimmed(stem.as_slice(), CharClass::Whitespace);
    let digits: usize = count_digits(s.as_slice());
    let tail: Vec<char> = part(s.as_slice(), digits, s.len());
    assert(tail@ =~= s@.skip(digits as int));
    let rest: Vec<char> = trimmed_start(tail.as_slice(), CharClass::TitleSeparator);
    if digits > 0 && digits <= 3 && rest.len() > 0 {
        return Some(to_text(rest.as_slice()));
    }
    if s.len() == 0 {
        None
    } else {
        Some(to_text(s.as_slice()))
    }
}

/// Whether the name of a directory tells nothing of what is in it.
pub open spec fn is_generic(name: Seq<char>) -> bool {
    let x = ascii_lower_all(name);
    ||| x == ""@
    ||| x == "."@
    ||| x == ".."@
    ||| x == "music"@
    ||| x == "music2"@
    ||| x == "test"@
    ||| x == "download"@
    ||| x == "downloads"@
    ||| x == "audio"@
    ||| x == "media"@
    ||| x == "root"@
    ||| x == "home"@
}

/// Tests whether the name of a directory tells nothing of what is in it.
pub fn is_generic_dir_name(name: &[char]) -> (r: bool)
    ensures
        r == is_generic(name@),
{
    let x: Vec<char> = to_ascii_lower(name);
    let x = x.as_slice();
    is_literal(x, "") || is_literal(x, ".") || is_literal(x, "..") || is_literal(x, "music")
        || is_literal(x, "music2") || is_literal(x, "test") || is_literal(x, "download")
        || is_literal(x, "downloads") || is_literal(x, "audio") || is_literal(x, "media")
        || is_literal(x, "root") || is_literal(x, "home")
}

/// What the directory `up` levels above a file tells: its name, unless that is a
/// generic one.
pub open spec fn told_by_directory(path: Seq<char>, up: int) -> Option<Seq<char>> {
    match name_back(path, up) {
        Some(name) => if is_generic(trim_ws(name)) {
            None
        } else {
            Some(trim_ws(name))
        },
        None => None,
    }
}

fn directory_name(path: &str, up: usize) -> (r: Option<String>)
    ensures
        string_of(r) == told_by_directory(path@, up as int),
{
    let chars: Vec<char> = to_chars(path);
    match path_name_back(chars.as_slice(), up) {
        Some(name) => {
            let t: Vec<char> = trimmed(name.as_slice(), CharClass::Whitespace);
            if is_generic_dir_name(t.as_slice()) {
                None
            } else {
                Some(to_text(t.as_slice()))
            }
        },
        None => None,
    }
}

/// The album that a path tells: the directory of the file.
pub fn infer_album_from_path(path: &str) -> (r: Option<String>)
    ensures
        string_of(r) == told_by_directory(path@, 1),
{
    directory_name(path, 1)
}

/// The artist that a path tells: the directory above that of the file.
pub fn infer_artist_from_path(path: &str) -> (r: Option<String>)
    ensures
        string_of(r) == told_by_directory(path@, 2),
{
    directory_name(path, 2)
}

// ---------------------------------------------------------------------------
// Repair and merging
// ---------------------------------------------------------------------------

/// A text, repaired where it can be.
pub open spec fn repaired_or_same(text: Option<Seq<char>>) -> Option<Seq<char>> {
    match text {
        Some(t) => Some(
            match repaired(t) {
                Some(better) => better,
                None => t,
            },
        ),
        None => None,
    }
}

/// Tags repaired for a file: title, artist and album together, and only where
/// the repaired title is the name of the file.
pub open spec fn repaired_for(tags: TagsView, path: Seq<char>) -> TagsView {
    let stem = file_stem(path);
    if stem is Some && tags.title is Some && repaired(tags.title->0) == stem {
        TagsView {
            title: stem,
            artist: repaired_or_same(tags.artist),
            album: repaired_or_same(tags.album),
            ..tags
        }
    } else {
        tags
    }
}

fn repair_or_keep(text: Option<String>) -> (r: Option<String>)
    requires
        text matches Some(t) ==> decodable(t@.len() as int),
    ensures
        string_of(r) == repaired_or_same(string_of(text)),
{
    match text {
        Some(t) => {
            let chars: Vec<char> = to_chars(t.as_str());
            match decode_latin1_as_gbk(chars.as_slice()) {
                Some(better) => Some(to_text(better.as_slice())),
                None => Some(t),
            }
        },
        None => None,
    }
}

/// Whether the texts of tags can be decoded anew.
pub open spec fn decodable_tags(tags: Tags) -> bool {
    &&& (tags.title matches Some(t) ==> decodable(t@.len() as int))
    &&& (tags.artist matches Some(t) ==> decodable(t@.len() as int))
    &&& (tags.album matches Some(t) ==> decodable(t@.len() as int))
}

/// Repairs tags that hold bytes of a Chinese encoding, one to a character. So
/// that no western tag is spoilt, this is done only where the repaired title is
/// the name of the file.
pub fn repair_legacy_gbk_tags_for_path(tags: Tags, path: &str) -> (r: Tags)
    requires
        decodable_tags(tags),
    ensures
        r@ == repaired_for(tags@, path@),
{
    let chars: Vec<char> = to_chars(path);
    let stem: Vec<char> = match path_file_stem(chars.as_slice()) {
        Some(stem) => stem,
        None => {
            return tags;
        },
    };
    let repaired_title: Vec<char> = match &tags.title {
        Some(title) => {
            let raw: Vec<char> = to_chars(title.as_str());
            match decode_latin1_as_gbk(raw.as_slice()) {
                Some(t) => t,
                None => {
                    return tags;
                },
            }
        },
        None => {
            return tags;
        },
    };
    if !same(repaired_title.as_slice(), stem.as_slice()) {
        return tags;
    }
    Tags {
        title: Some(to_text(repaired_title.as_slice())),
        artist: repair_or_keep(tags.artist),
        album: repair_or_keep(tags.album),
        track: tags.track,
        comment: tags.comment,
    }
}

/// Tags as the native format of a file holds them.
pub struct NativeTags {
    pub title: Option<String>,
    pub artist: Option<String>,
    pub album: Option<String>,
    pub track_number: Option<u32>,
}

/// A text cleaned, where there is one.
pub open spec fn cleaned_opt(text: Option<Seq<char>>) -> Option<Seq<char>> {
    match text {
        Some(t) => cleaned(t),
        None => None,
    }
}

fn clean_opt(text: &Option<String>) -> (r: Option<String>)
    requires
        text matches Some(t) ==> decodable(t@.len() as int),
    ensures
        string_of(r) == cleaned_opt(string_of(*text)),
{
    match text {
        Some(t) => {
            let chars: Vec<char> = to_chars(t.as_str());
            clean_chars(chars.as_slice())
        },
        None => None,
    }
}

/// The native tags of a file, cleaned.
pub open spec fn native_view(native: Option<NativeTags>) -> TagsView {
    match native {
        Some(n) => TagsView {
            title: cleaned_opt(string_of(n.title)),
            artist: cleaned_opt(string_of(n.artist)),
            album: cleaned_opt(string_of(n.album)),
            track: match n.track_number {
                Some(k) => Some((k as int % 0x1_0000) as u16),
                None => None,
            },
            comment: None,
        },
        None => TagsView { title: None, artist: None, album: None, track: None, comment: None },
    }
}

/// The tags of a file: its native ones; what they lack from its container, with
/// the comment; and what both lack from its path.
pub open spec fn merged(path: Seq<char>, native: TagsView, container: TagsView) -> TagsView {
    let lacking = native.title is None || native.artist is None || native.album is None
        || native.track is None;
    TagsView {
        title: either(native.title, either(cleaned_opt(container.title), title_from_path(path))),
        artist: either(
            native.artist,
            either(cleaned_opt(container.artist), told_by_directory(path, 2)),
        ),
        album: either(
            native.album,
            either(cleaned_opt(container.album), told_by_directory(path, 1)),
        ),
        track: either(native.track, container.track),
        comment: if lacking {
            cleaned_opt(container.comment)
        } else {
            None
        },
    }
}

fn low_u16(n: u32) -> (r: u16)
    ensures
        r == n as int % 0x1_0000,
{
    (n % 0x1_0000) as u16
}

/// Settles the tags of a file from its native tags, its container's and its
/// path.
pub fn extract_file_tags(
    path: &str,
    native: Option<NativeTags>,
    container: &Vec<(String, String)>,
) -> (r: Tags)
    requires
        native matches Some(n) ==> {
            &&& (n.title matches Some(t) ==> decodable(t@.len() as int))
            &&& (n.artist matches Some(t) ==> decodable(t@.len() as int))
            &&& (n.album matches Some(t) ==> decodable(t@.len() as int))
        },
        forall|i: int|
            0 <= i < container@.len() ==> decodable((#[trigger] container@[i]).1@.len() as int),
    ensures
        r@ == merged(path@, native_view(native), container_tags(entries(container@))),
{
    let mut title: Option<String> = None;
    let mut artist: Option<String> = None;
    let mut album: Option<String> = None;
    let mut track: Option<u16> = None;
    let mut comment: Option<String> = None;
    if let Some(n) = &native {
        title = clean_opt(&n.title);
        artist = clean_opt(&n.artist);
        album = clean_opt(&n.album);
        track = match n.track_number {
            Some(k) => Some(low_u16(k)),
            None => None,
        };
    }
    if title.is_none() || artist.is_none() || album.is_none() || track.is_none() {
        let tags = extract_tags(container);
        proof {
            let d = entries(container@);
            assert forall|i: int| 0 <= i < d.len() implies decodable(
                (#[trigger] d[i]).1.len() as int,
            ) by {
                assert(d[i].1 == container@[i].1@);
            }
            lemma_lookup_decodable(d, "title"@, 0);
            lemma_lookup_decodable(d, "artist"@, 0);
            lemma_lookup_decodable(d, "album_artist"@, 0);
            lemma_lookup_decodable(d, "album"@, 0);
            lemma_lookup_decodable(d, "comment"@, 0);
        }
        if title.is_none() {
            title = clean_opt(&tags.title);
        }
        if artist.is_none() {
            artist = clean_opt(&tags.artist);
        }
        if album.is_none() {
            album = clean_opt(&tags.album);
        }
        if track.is_none() {
            track = tags.track;
        }
        comment = clean_opt(&tags.comment);
    }
    if title.is_none() {
        title = clean_title_from_filename(path);
    }
    if artist.is_none() {
        artist = infer_artist_from_path(path);
    }
    if album.is_none() {
        album = infer_album_from_path(path);
    }
    Tags { title, artist, album, track, comment }
}

proof fn lemma_lookup_decodable(dict: Seq<(Seq<char>, Seq<char>)>, key: Seq<char>, from: int)
    requires
        0 <= from <= dict.len(),
        forall|i: int| 0 <= i < dict.len() ==> decodable((#[trigger] dict[i]).1.len() as int),
    ensures
        lookup_from(dict, key, from) matches Some(t) ==> decodable(t.len() as int),
    decreases dict.len() - from,
{
    if from < dict.len() {
        lemma_lookup_decodable(dict, key, from + 1);
    }
}

// ---------------------------------------------------------------------------
// Laws
// ---------------------------------------------------------------------------

/// Keys are looked up in whatever case: two keys that differ in case only find
/// the same value.
pub proof fn law_lookup_ignores_case(
    dict: Seq<(Seq<char>, Seq<char>)>,
    a: Seq<char>,
    b: Seq<char>,
    from: int,
)
    requires
        0 <= from <= dict.len(),
        ascii_lower_all(a) == ascii_lower_all(b),
    ensures
        lookup_from(dict, a, from) == lookup_from(dict, b, from),
    decreases dict.len() - from,
{
    if from < dict.len() {
        law_lookup_ignores_case(dict, a, b, from + 1);
    }
}

/// A tag of ASCII characters is never taken for another encoding: it is kept,
/// trimmed.
pub proof fn law_ascii_tags_are_kept(text: Seq<char>)
    requires
        crate::text::all_ascii(trim_ws(text)),
        trim_ws(text).len() > 0,
    ensures
        cleaned(text) == Some(trim_ws(text)),
        repaired(trim_ws(text)) is None,
{
    let t = trim_ws(text);
    let b = latin1_bytes(t);
    assert forall|i: int| 0 <= i < b.len() implies b[i] < 0x80 by {
        assert((t[i] as u32) < 0x80);
    }
    lemma_no_high_bytes(b);
    assert(!is_latin1(t));
    assert(!is_spoilt(t)) by {
        assert forall|i: int| 0 <= i < t.len() implies t[i] != '\u{fffd}' && !is_mojibake(
            t[i],
        ) by {
            assert((t[i] as u32) < 0x80);
        }
    }
}

proof fn lemma_no_high_bytes(b: Seq<u8>)
    requires
        forall|i: int| 0 <= i < b.len() ==> b[i] < 0x80,
    ensures
        high_bytes(b) == 0,
    decreases b.len(),
{
    if b.len() > 0 {
        lemma_no_high_bytes(b.drop_last());
    }
}

/// Repair never touches the tags of a file whose name is not the repaired title.
pub proof fn law_unrelated_file_name_blocks_repair(tags: TagsView, path: Seq<char>)
    requires
        tags.title matches Some(t) ==> repaired(t) != file_stem(path) || file_stem(path) is None,
    ensures
        repaired_for(tags, path) == tags,
{
}

} // verus!
