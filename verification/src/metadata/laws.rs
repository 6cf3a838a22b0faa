//! What tags come to, told by what goes in: lookup, cleaning, repair and what a path
//! adds.

use vstd::prelude::*;

use super::{
    accepted_text, cleaned_opt, cleaned_with, container_tags, decibel_number, gbk_counts,
    high_bytes, is_generic, is_spoilt, leading_digits, looks_like_gbk, lookup, lookup_from, merged,
    native_view, r128_number, repaired, repaired_for, title_from_path, told_by_directory,
    without_ending, without_number, NativeTags, TagsView,
};
use crate::encoding::{decoding, guessed_encoding};
use crate::number::{is_digit, is_real, unsigned_value};
use crate::path::{
    components, file_stem, law_a_file_has_its_extension, law_a_slash_sets_off_a_component,
    };
use crate::text::{
    ascii_lower_all, finishes_with, law_a_front_is_taken_off, law_a_text_is_found_where_it_stands,
    law_trimming_takes_off_the_ends, trim, trim_ws, CharClass,
};

verus! {

/// Whether the entry at `i` is the first with that key, in either case.
pub open spec fn is_first_of(
    dict: Seq<(Seq<char>, Seq<char>)>,
    key: Seq<char>,
    i: int,
) -> bool {
    &&& 0 <= i < dict.len()
    &&& ascii_lower_all(dict[i].0) == ascii_lower_all(key)
    &&& forall|k: int| 0 <= k < i ==> ascii_lower_all((#[trigger] dict[k]).0) != ascii_lower_all(key)
}

/// Whether no entry has that key.
pub open spec fn lacks(dict: Seq<(Seq<char>, Seq<char>)>, key: Seq<char>) -> bool {
    forall|k: int|
        0 <= k < dict.len() ==> ascii_lower_all((#[trigger] dict[k]).0) != ascii_lower_all(key)
}

/// A key is answered with its first entry; a key without one is not answered.
pub proof fn law_lookup_takes_the_first(
    dict: Seq<(Seq<char>, Seq<char>)>,
    key: Seq<char>,
    i: int,
)
    ensures
        is_first_of(dict, key, i) ==> lookup(dict, key) == Some(dict[i].1),
        lacks(dict, key) ==> lookup(dict, key) is None,
{
    lemma_lookup_from(dict, key, 0, i);
}

proof fn lemma_lookup_from(
    dict: Seq<(Seq<char>, Seq<char>)>,
    key: Seq<char>,
    from: int,
    i: int,
)
    requires
        0 <= from <= dict.len(),
    ensures
        from <= i && is_first_of(dict, key, i) ==> lookup_from(dict, key, from) == Some(dict[i].1),
        lacks(dict, key) ==> lookup_from(dict, key, from) is None,
    decreases dict.len() - from,
{
    if from < dict.len() {
        lemma_lookup_from(dict, key, from + 1, i);
    }
}

/// A container's tags are the first entries of their keys. The artist of the album
/// stands in for a track's own; a track number is a number of 16 bits.
pub proof fn law_container_tags_are_their_entries(
    dict: Seq<(Seq<char>, Seq<char>)>,
    i: int,
)
    ensures
        is_first_of(dict, "title"@, i) ==> container_tags(dict).title == Some(dict[i].1),
        is_first_of(dict, "album"@, i) ==> container_tags(dict).album == Some(dict[i].1),
        is_first_of(dict, "comment"@, i) ==> container_tags(dict).comment == Some(dict[i].1),
        is_first_of(dict, "artist"@, i) ==> container_tags(dict).artist == Some(dict[i].1),
        lacks(dict, "artist"@) && is_first_of(dict, "album_artist"@, i) ==> container_tags(
            dict,
        ).artist == Some(dict[i].1),
        is_first_of(dict, "track"@, i) ==> match unsigned_value(dict[i].1, 65_535) {
            Some(n) => container_tags(dict).track == Some(n as u16),
            None => container_tags(dict).track is None,
        },
        lacks(dict, "title"@) ==> container_tags(dict).title is None,
        lacks(dict, "album"@) ==> container_tags(dict).album is None,
        lacks(dict, "track"@) ==> container_tags(dict).track is None,
        lacks(dict, "artist"@) && lacks(dict, "album_artist"@) ==> container_tags(dict).artist
            is None,
{
    law_lookup_takes_the_first(dict, "title"@, i);
    law_lookup_takes_the_first(dict, "album"@, i);
    law_lookup_takes_the_first(dict, "comment"@, i);
    law_lookup_takes_the_first(dict, "artist"@, i);
    law_lookup_takes_the_first(dict, "album_artist"@, i);
    law_lookup_takes_the_first(dict, "track"@, i);
}

/// An ending is taken off as often as it stands there.
pub proof fn law_endings_are_taken_off(s: Seq<char>, ending: Seq<char>)
    requires
        ending.len() > 0,
    ensures
        without_ending(s + ending, ending) == without_ending(s, ending),
        !finishes_with(s, ending) ==> without_ending(s, ending) == s,
        !finishes_with(without_ending(s, ending), ending),
    decreases s.len(),
{
    law_a_text_is_found_where_it_stands(s, ending, ending);
    assert((s + ending).take(s.len() as int) =~= s);
    if finishes_with(s, ending) {
        law_endings_are_taken_off(s.take(s.len() - ending.len()), ending);
    }
}

/// The gain of a track goes before that of its album. A gain in decibels may name
/// its unit, one after R128 names none; what is no number is no gain.
pub proof fn law_gains_are_numbers(dict: Seq<(Seq<char>, Seq<char>)>, gain: Seq<char>, i: int)
    requires
        is_real(gain),
        trim_ws(gain) == gain,
        !finishes_with(gain, "dB"@),
        !finishes_with(gain, " dB"@),
    ensures
        is_first_of(dict, "R128_TRACK_GAIN"@, i) && trim_ws(dict[i].1) == gain ==> r128_number(dict)
            == Some(gain),
        lacks(dict, "R128_TRACK_GAIN"@) && is_first_of(dict, "R128_ALBUM_GAIN"@, i) && trim_ws(
            dict[i].1,
        ) == gain ==> r128_number(dict) == Some(gain),
        lacks(dict, "R128_TRACK_GAIN"@) && lacks(dict, "R128_ALBUM_GAIN"@) ==> r128_number(dict)
            is None,
        is_first_of(dict, "replaygain_track_gain"@, i) && (trim_ws(dict[i].1) == gain || trim_ws(
            dict[i].1,
        ) == gain + " dB"@ || trim_ws(dict[i].1) == gain + "dB"@ && !finishes_with(
            gain + "dB"@,
            " dB"@,
        )) ==> decibel_number(dict) == Some(gain),
        lacks(dict, "replaygain_track_gain"@) && is_first_of(dict, "replaygain_album_gain"@, i)
            && (trim_ws(dict[i].1) == gain || trim_ws(dict[i].1) == gain + " dB"@)
            ==> decibel_number(dict) == Some(gain),
        lacks(dict, "replaygain_track_gain"@) && lacks(dict, "replaygain_album_gain"@)
            ==> decibel_number(dict) is None,
        r128_number(dict) matches Some(g) ==> is_real(g),
        decibel_number(dict) matches Some(g) ==> is_real(g),
{
    reveal_strlit("dB");
    reveal_strlit(" dB");
    law_lookup_takes_the_first(dict, "R128_TRACK_GAIN"@, i);
    law_lookup_takes_the_first(dict, "R128_ALBUM_GAIN"@, i);
    law_lookup_takes_the_first(dict, "replaygain_track_gain"@, i);
    law_lookup_takes_the_first(dict, "replaygain_album_gain"@, i);
    law_endings_are_taken_off(gain, " dB"@);
    law_endings_are_taken_off(gain, "dB"@);
}

/// Bytes of 0x80 and more count as high, wherever they stand.
pub proof fn law_high_bytes_are_counted(a: Seq<u8>, x: u8)
    ensures
        high_bytes(a.push(x)) == high_bytes(a) + if x >= 128 {
            1int
        } else {
            0
        },
        high_bytes(Seq::empty()) == 0,
{
    assert(a.push(x).drop_last() =~= a);
}

/// Bytes are counted from the front: two that make a character of GBK count as a
/// pair, an ASCII byte counts nothing, any other counts alone.
pub proof fn law_pairs_are_counted(a: u8, b: u8, rest: Seq<u8>)
    ensures
        a < 128 ==> gbk_counts(seq![a] + rest, 0) == gbk_counts(rest, 0),
        129 <= a <= 254 && (64 <= b <= 126 || 128 <= b <= 254) ==> ({
            let (pairs, total) = gbk_counts(rest, 0);
            gbk_counts(seq![a, b] + rest, 0) == (pairs + 1, total + 2)
        }),
        a == 128 || a == 255 || (a >= 128 && (b < 64 || b == 127 || b == 255)) ==> ({
            let (pairs, total) = gbk_counts(seq![b] + rest, 0);
            gbk_counts(seq![a, b] + rest, 0) == (pairs, total + 1)
        }),
        a >= 128 ==> gbk_counts(seq![a], 0) == (0int, 1int),
        gbk_counts(Seq::empty(), 0) == (0int, 0int),
{
    let one = seq![a] + rest;
    let two = seq![a, b] + rest;
    let tail = seq![b] + rest;
    lemma_counts_shift(one, rest, 1, 0);
    lemma_counts_shift(two, rest, 2, 0);
    assert forall|i: int| 0 <= i < tail.len() implies two[1 + i] == #[trigger] tail[i] by {}
    lemma_counts_shift(two, tail, 1, 0);
    reveal_with_fuel(gbk_counts, 2);
}

proof fn lemma_counts_shift(all: Seq<u8>, rest: Seq<u8>, by: int, from: int)
    requires
        0 <= by,
        0 <= from <= rest.len(),
        all.len() == by + rest.len(),
        forall|i: int| 0 <= i < rest.len() ==> all[by + i] == #[trigger] rest[i],
    ensures
        gbk_counts(all, by + from) == gbk_counts(rest, from),
    decreases rest.len() - from,
{
    if from < rest.len() {
        assert(all[by + from] == rest[from]);
        lemma_counts_shift(all, rest, by, from + 1);
        if from + 1 < rest.len() {
            assert(all[by + (from + 1)] == rest[from + 1]);
            lemma_counts_shift(all, rest, by, from + 2);
        }
    }
}

/// Bytes look like GBK where pairs are at least 35 in a hundred of what was counted.
pub proof fn law_gbk_is_told_by_its_share(b: Seq<u8>)
    ensures
        ({
            let (pairs, total) = gbk_counts(b, 0);
            looks_like_gbk(b) <==> total >= 1 && 100 * pairs >= 35 * total
        }),
{
}

/// A text read anew is taken only where it was read without fault, says something
/// and says something else. It carries no white space at its ends.
pub proof fn law_a_new_reading_says_something_else(
    raw: Seq<char>,
    decoded: Option<(Seq<char>, bool)>,
)
    ensures
        accepted_text(raw, decoded) matches Some(t) ==> {
            &&& t.len() > 0
            &&& t != raw
            &&& !CharClass::Whitespace.has(t[0]) && !CharClass::Whitespace.has(t.last())
            &&& decoded matches Some((text, malformed)) && !malformed
        },
        decoded is None ==> accepted_text(raw, decoded) is None,
        decoded matches Some((text, malformed)) ==> malformed ==> accepted_text(raw, decoded)
            is None,
        decoded matches Some((text, malformed)) ==> !malformed && trim_ws(trim(text, CharClass::Only('\0'))) == text
            && text.len() > 0 && text != raw ==> accepted_text(raw, decoded) == Some(text),
{
    if let Some((text, _)) = decoded {
        law_trimming_takes_off_the_ends(trim(text, CharClass::Only('\0')), CharClass::Whitespace);
    }
}

/// A text is repaired only where each character is one byte and two bytes are high.
/// What looks like GBK is read as GB18030 first; then comes GBK, then the encoding
/// that the bytes suggest.
pub proof fn law_repair_tries_in_turn(text: Seq<char>, b: Seq<u8>)
    requires
        b == super::latin1_bytes(text),
    ensures
        (exists|i: int| 0 <= i < text.len() && (#[trigger] text[i] as u32) > 255) ==> repaired(text)
            is None,
        high_bytes(b) <= 1 ==> repaired(text) is None,
        (forall|i: int| 0 <= i < text.len() ==> (#[trigger] text[i] as u32) <= 255) && high_bytes(
            b,
        ) >= 2 ==> {
            let gb18030 = accepted_text(text, decoding("gb18030"@, b));
            let gbk = accepted_text(text, decoding("gbk"@, b));
            let guess = accepted_text(text, decoding(guessed_encoding(b), b));
            &&& looks_like_gbk(b) && gb18030 is Some ==> repaired(text) == gb18030
            &&& !looks_like_gbk(b) && gbk is Some ==> repaired(text) == gbk
            &&& gb18030 is None && gbk is Some ==> repaired(text) == gbk
            &&& gb18030 is None && gbk is None ==> repaired(text) == guess
            &&& !looks_like_gbk(b) && gbk is None ==> repaired(text) == guess
        },
        forall|i: int|
            0 <= i < text.len() && (#[trigger] text[i] as u32) <= 255 ==> b[i] as u32 == text[i] as u32,
{
}

/// A tag is trimmed. It is dropped where nothing is left, and where a character
/// tells that it was spoilt: the replacement character, or one of the letters
/// U+0180 to U+02AF. A repair stands only for a text of single bytes, one of them
/// high.
pub proof fn law_clean_tags_are_trimmed(text: Seq<char>, repair: Option<Seq<char>>)
    ensures
        ({
            let t = trim_ws(text);
            let spoilt = exists|i: int|
                0 <= i < t.len() && (#[trigger] t[i] == '\u{fffd}' || ('\u{180}' <= t[i] && t[i]
                    <= '\u{2af}'));
            let narrow = (forall|i: int| 0 <= i < t.len() ==> #[trigger] t[i] <= '\u{ff}') && (
            exists|i: int| 0 <= i < t.len() && #[trigger] t[i] >= '\u{80}');
            &&& is_spoilt(t) == spoilt
            &&& cleaned_with(text, repair) is None <==> t.len() == 0 || spoilt
            &&& t.len() > 0 && !spoilt && (!narrow || repair is None) ==> cleaned_with(
                text,
                repair,
            ) == Some(t)
            &&& t.len() > 0 && !spoilt && narrow && repair is Some ==> cleaned_with(text, repair)
                == repair
        }),
{
    let t = trim_ws(text);
    if super::is_latin1(t) {
        let i = choose|i: int| 0 <= i < t.len() && (#[trigger] t[i] as u32) >= 0x80;
        lemma_code(t[i]);
        assert(t[i] >= '\u{80}');
    }
    if exists|i: int| 0 <= i < t.len() && #[trigger] t[i] >= '\u{80}' {
        let i = choose|i: int| 0 <= i < t.len() && #[trigger] t[i] >= '\u{80}';
        lemma_code(t[i]);
        assert((t[i] as u32) >= 0x80);
    }
    if is_spoilt(t) {
        let i = choose|i: int|
            0 <= i < t.len() && (#[trigger] t[i] == '\u{fffd}' || super::is_mojibake(t[i]));
        lemma_code(t[i]);
        assert(t[i] == '\u{fffd}' || ('\u{180}' <= t[i] && t[i] <= '\u{2af}'));
    }
    assert forall|i: int| 0 <= i < t.len() implies ((#[trigger] t[i] as u32) <= 255 <==> t[i]
        <= '\u{ff}') by {
        lemma_code(t[i]);
    }
    assert forall|i: int| 0 <= i < t.len() implies (super::is_mojibake(#[trigger] t[i])
        <==> '\u{180}' <= t[i] && t[i] <= '\u{2af}') by {
        lemma_code(t[i]);
    }
}

proof fn lemma_code(c: char)
    ensures
        (c as u32) as int == c as int,
{
}

proof fn lemma_leading_digits(digits: Seq<char>, rest: Seq<char>)
    requires
        forall|k: int| 0 <= k < digits.len() ==> is_digit(#[trigger] digits[k]),
        rest.len() == 0 || !is_digit(rest[0]),
    ensures
        leading_digits(digits + rest) == digits.len(),
    decreases digits.len(),
{
    let s = digits + rest;
    if digits.len() > 0 {
        assert(is_digit(digits[0]) && s[0] == digits[0]);
        assert forall|k: int| 0 <= k < digits.len() - 1 implies is_digit(
            #[trigger] digits.drop_first()[k],
        ) by {
            assert(digits.drop_first()[k] == digits[k + 1]);
        }
        lemma_leading_digits(digits.drop_first(), rest);
        assert(s.drop_first() =~= digits.drop_first() + rest);
    } else {
        assert(s =~= rest);
    }
}

/// A title loses a number of one to three digits in front of it, with what sets it
/// off. A longer number belongs to the title, and one with nothing behind it is the
/// title.
pub proof fn law_a_track_number_is_no_title(
    digits: Seq<char>,
    between: Seq<char>,
    title: Seq<char>,
)
    requires
        forall|k: int| 0 <= k < digits.len() ==> '0' <= #[trigger] digits[k] && digits[k] <= '9',
        forall|k: int|
            0 <= k < between.len() ==> CharClass::TitleSeparator.has(#[trigger] between[k]),
        title.len() > 0 ==> !CharClass::TitleSeparator.has(title[0]),
        between.len() == 0 && title.len() > 0 ==> !('0' <= title[0] && title[0] <= '9'),
    ensures
        1 <= digits.len() <= 3 && title.len() > 0 ==> without_number(digits + (between + title))
            == title,
        digits.len() == 0 || digits.len() > 3 || title.len() == 0 ==> without_number(
            digits + (between + title),
        ) == digits + (between + title),
{
    let rest = between + title;
    let all = digits + rest;
    assert forall|k: int| 0 <= k < digits.len() implies is_digit(#[trigger] digits[k]) by {
        assert('0' <= digits[k] && digits[k] <= '9');
    }
    if between.len() > 0 {
        assert(CharClass::TitleSeparator.has(between[0]));
        assert(rest[0] == between[0]);
    } else {
        assert(rest =~= title);
    }
    lemma_leading_digits(digits, rest);
    assert(all.skip(digits.len() as int) =~= rest);
    law_a_front_is_taken_off(between, title, CharClass::TitleSeparator);
}

/// Names that tell nothing are these, in either case.
pub proof fn law_generic_names_tell_nothing(name: Seq<char>)
    ensures
        is_generic(name) <==> {
            let x = ascii_lower_all(name);
            ||| x == ""@ || x == "."@ || x == ".."@
            ||| x == "root"@ || x == "home"@ || x == "test"@
            ||| x == "music"@ || x == "music2"@ || x == "audio"@ || x == "media"@
            ||| x == "download"@ || x == "downloads"@
        },
{
}

/// A file that lies in a directory of an album, and that in one of an artist, is
/// told by them: its directory names the album, the one above names the artist.
pub proof fn law_directories_tell_album_and_artist(
    root: Seq<char>,
    artist: Seq<char>,
    album: Seq<char>,
    name: Seq<char>,
)
    requires
        is_plain_name(artist) && trim_ws(artist) == artist && !is_generic(artist),
        is_plain_name(album) && trim_ws(album) == album && !is_generic(album),
        is_plain_name(name),
    ensures
        ({
            let path = root + seq!['/'] + artist + seq!['/'] + album + seq!['/'] + name;
            &&& told_by_directory(path, 1) == Some(album)
            &&& told_by_directory(path, 2) == Some(artist)
        }),
{
    reveal_strlit(".");
    reveal_strlit("..");
    assert("."@ =~= seq!['.']);
    assert(".."@ =~= seq!['.', '.']);
    let one = root + seq!['/'] + artist;
    let two = one + seq!['/'] + album;
    law_a_slash_sets_off_a_component(root, artist);
    law_a_slash_sets_off_a_component(one, album);
    law_a_slash_sets_off_a_component(two, name);
    let c = components(root).push(artist).push(album).push(name);
    let n = components(root).len() as int;
    assert(c[n] == artist && c[n + 1] == album && c.len() == n + 3);
}

/// Whether a text can be a name in a directory.
pub open spec fn is_plain_name(name: Seq<char>) -> bool {
    &&& name.len() > 0
    &&& name != seq!['.']
    &&& name != seq!['.', '.']
    &&& forall|k: int| 0 <= k < name.len() ==> #[trigger] name[k] != '/'
}

/// The title that a path tells is the name of its file, without extension, white
/// space and number.
pub proof fn law_a_path_tells_the_title(dir: Seq<char>, stem: Seq<char>, ext: Seq<char>)
    requires
        stem.len() > 0,
        ext.len() > 0,
        forall|k: int| 0 <= k < stem.len() ==> #[trigger] stem[k] != '/',
        forall|k: int| 0 <= k < ext.len() ==> #[trigger] ext[k] != '/' && ext[k] != '.',
    ensures
        ({
            let told = title_from_path(dir + seq!['/'] + (stem + seq!['.'] + ext));
            let title = without_number(trim_ws(stem));
            &&& title.len() > 0 ==> told == Some(title)
            &&& title.len() == 0 ==> told is None
        }),
{
    law_a_file_has_its_extension(dir, stem, ext);
}

/// What a file says of itself goes first, then what its container says, then what
/// its path tells; a comment is the container's, and asked for only where the file
/// left something out.
pub proof fn law_tags_are_merged_by_rank(path: Seq<char>, native: TagsView, container: TagsView)
    ensures
        ({
            let all = merged(path, native, container);
            &&& native.title is Some ==> all.title == native.title
            &&& native.artist is Some ==> all.artist == native.artist
            &&& native.album is Some ==> all.album == native.album
            &&& native.track is Some ==> all.track == native.track
            &&& native.track is None ==> all.track == container.track
            &&& native.title is None && cleaned_opt(container.title) is Some ==> all.title
                == cleaned_opt(container.title)
            &&& native.artist is None && cleaned_opt(container.artist) is Some ==> all.artist
                == cleaned_opt(container.artist)
            &&& native.album is None && cleaned_opt(container.album) is Some ==> all.album
                == cleaned_opt(container.album)
            &&& native.title is None && container.title is None ==> all.title == title_from_path(
                path,
            )
            &&& native.artist is None && container.artist is None ==> all.artist
                == told_by_directory(path, 2)
            &&& native.album is None && container.album is None ==> all.album == told_by_directory(
                path,
                1,
            )
            &&& native.title is Some && native.artist is Some && native.album is Some
                && native.track is Some ==> all.comment is None
            &&& native.title is None ==> all.comment == cleaned_opt(container.comment)
            &&& native.artist is None ==> all.comment == cleaned_opt(container.comment)
            &&& native.album is None ==> all.comment == cleaned_opt(container.comment)
            &&& native.track is None ==> all.comment == cleaned_opt(container.comment)
        }),
{
}

/// A file's own tags are cleaned one by one, and its track number keeps what 16
/// bits hold.
pub proof fn law_native_tags_are_cleaned(native: NativeTags, k: u32)
    requires
        native.track_number == Some(k),
    ensures
        ({
            let v = native_view(Some(native));
            &&& native.title matches Some(t) ==> v.title == cleaned_opt(Some(t@))
            &&& native.artist matches Some(t) ==> v.artist == cleaned_opt(Some(t@))
            &&& native.album matches Some(t) ==> v.album == cleaned_opt(Some(t@))
            &&& k <= 65_535 ==> v.track == Some(k as u16)
            &&& v.comment is None
        }),
        native_view(None).title is None && native_view(None).track is None,
{
}

/// Where the repaired title is the name of the file, title, artist and album are
/// repaired together, each as far as it can be; else none is.
pub proof fn law_tags_are_repaired_together(tags: TagsView, path: Seq<char>)
    ensures
        ({
            let after = repaired_for(tags, path);
            let agrees = tags.title is Some && file_stem(path) is Some && repaired(tags.title->0)
                == file_stem(path);
            &&& !agrees ==> after == tags
            &&& agrees ==> after.title == file_stem(path)
            &&& agrees ==> (tags.artist matches Some(a) ==> after.artist == match repaired(a) {
                Some(better) => Some(better),
                None => Some(a),
            })
            &&& agrees ==> (tags.album matches Some(a) ==> after.album == match repaired(a) {
                Some(better) => Some(better),
                None => Some(a),
            })
            &&& after.track == tags.track && after.comment == tags.comment
        }),
{
}

} // verus!
