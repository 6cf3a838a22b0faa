//! The audio file that a cue sheet means, found among the files beside it.

use vstd::prelude::*;

use crate::path::{
    extension, file_name, join, path_extension, path_file_name, path_join,
};
use crate::text::{
    append, ascii_lower_all, char_lowercase, char_to_lowercase, is_literal, lowercase,
    replace_char, replaced, same, to_ascii_lower, to_chars, to_lowercase, to_text,
};

verus! {

/// Whether a character counts in a loose comparison: an ASCII letter or digit,
/// or any character beyond ASCII.
pub open spec fn is_kept(c: char) -> bool {
    ||| c as u32 >= 0x80
    ||| '0' <= c && c <= '9'
    ||| 'a' <= c && c <= 'z'
    ||| 'A' <= c && c <= 'Z'
}

/// A text for loose comparison: what counts of it, in lower case.
pub open spec fn fuzzy(s: Seq<char>) -> Seq<char>
    decreases s.len(),
{
    if s.len() == 0 {
        Seq::empty()
    } else if is_kept(s.last()) {
        fuzzy(s.drop_last()) + char_lowercase(s.last())
    } else {
        fuzzy(s.drop_last())
    }
}

/// The same for a text of ASCII characters.
pub open spec fn fuzzy_ascii(s: Seq<char>) -> Seq<char> {
    ascii_lower_all(s.filter(|c: char| is_kept(c)))
}

/// Readies a text for loose comparison: drops ASCII spaces and punctuation, and
/// turns the rest to lower case.
pub fn normalize_for_fuzzy_match(s: &str) -> (r: String)
    ensures
        r@ == fuzzy(s@),
        crate::text::all_ascii(s@) ==> r@ == fuzzy_ascii(s@),
{
    let chars: Vec<char> = to_chars(s);
    let n: usize = chars.len();
    let mut out: Vec<char> = Vec::new();
    let mut i: usize = 0;
    let ghost kept = |c: char| is_kept(c);
    let ghost ascii = crate::text::all_ascii(s@);
    proof {
        assert(s@.take(0) =~= Seq::empty());
        reveal(Seq::filter);
        assert(fuzzy_ascii(s@.take(0)) =~= Seq::<char>::empty());
    }
    while i < n
        invariant
            i <= n,
            n == chars@.len(),
            chars@ == s@,
            ascii == crate::text::all_ascii(s@),
            out@ == fuzzy(s@.take(i as int)),
            ascii ==> out@ == fuzzy_ascii(s@.take(i as int)),
        decreases n - i,
    {
        let c: char = chars[i];
        proof {
            assert(s@[i as int] == c);
            assert(s@.take(i + 1).drop_last() =~= s@.take(i as int));
            reveal(Seq::filter);
        }
        let ghost before = out@;
        let u: u32 = c as u32;
        if u >= 0x80 || ('0' <= c && c <= '9') || ('a' <= c && c <= 'z') || ('A' <= c && c <= 'Z') {
            let lowered: Vec<char> = char_to_lowercase(c);
            append(&mut out, lowered.as_slice());
            proof {
                if ascii {
                    let head = s@.take(i as int).filter(|c: char| is_kept(c));
                    assert(s@.take(i + 1).filter(|c: char| is_kept(c)) =~= head.push(c));
                    assert(ascii_lower_all(head.push(c)) =~= ascii_lower_all(head)
                        + seq![crate::text::ascii_lower(c)]);
                }
            }
        }
        i += 1;
    }
    assert(s@.take(n as int) =~= s@);
    to_text(out.as_slice())
}

/// Whether an extension is that of an audio file that a cue sheet can mean.
pub open spec fn is_audio_extension(e: Seq<char>) -> bool {
    let x = ascii_lower_all(e);
    ||| x == "ape"@
    ||| x == "flac"@
    ||| x == "wav"@
    ||| x == "mp3"@
    ||| x == "m4a"@
    ||| x == "ogg"@
    ||| x == "wma"@
    ||| x == "opus"@
    ||| x == "aac"@
    ||| x == "dsf"@
    ||| x == "dff"@
    ||| x == "iso"@
}

/// Whether a path is that of an audio file.
pub open spec fn is_audio_path(path: Seq<char>) -> bool {
    match extension(path) {
        Some(e) => is_audio_extension(e),
        None => false,
    }
}

/// Tests whether a path is that of an audio file.
pub fn names_audio(path: &[char]) -> (r: bool)
    ensures
        r == is_audio_path(path@),
{
    match path_extension(path) {
        Some(e) => {
            let x: Vec<char> = to_ascii_lower(e.as_slice());
            let x = x.as_slice();
            is_literal(x, "ape") || is_literal(x, "flac") || is_literal(x, "wav") || is_literal(
                x,
                "mp3",
            ) || is_literal(x, "m4a") || is_literal(x, "ogg") || is_literal(x, "wma")
                || is_literal(x, "opus") || is_literal(x, "aac") || is_literal(x, "dsf")
                || is_literal(x, "dff") || is_literal(x, "iso")
        },
        None => false,
    }
}

/// A file beside a cue sheet: its path, and its name in lower case and readied
/// for loose comparison.
pub struct AudioCandidate {
    pub path: Vec<char>,
    /// `None` where the path has no name.
    pub keys: Option<MatchKeys>,
}

/// A name in lower case and readied for loose comparison.
pub struct MatchKeys {
    pub lowered: Vec<char>,
    pub loose: Vec<char>,
}

/// Whether a candidate's name is the one looked for, but for its case.
pub open spec fn matches_lowered(c: AudioCandidate, wanted: MatchKeys) -> bool {
    c.keys matches Some(k) && k.lowered@ == wanted.lowered@
}

/// Whether a candidate's name is the one looked for, loosely.
pub open spec fn matches_loose(c: AudioCandidate, wanted: MatchKeys) -> bool {
    c.keys matches Some(k) && k.loose@ == wanted.loose@
}

/// Position of the first candidate at or after `from` that satisfies a
/// condition, or their number.
pub open spec fn first_where(
    files: Seq<AudioCandidate>,
    p: spec_fn(AudioCandidate) -> bool,
    from: int,
) -> int
    decreases files.len() - from,
{
    if 0 <= from < files.len() && !p(files[from]) {
        first_where(files, p, from + 1)
    } else {
        from
    }
}

/// Number of candidates that are audio files.
pub open spec fn audio_count(files: Seq<AudioCandidate>) -> int {
    files.filter(|c: AudioCandidate| is_audio_path(c.path@)).len() as int
}

/// The file that is meant, among those beside a cue sheet: the first whose name
/// differs in case only; else the first whose name is loosely the same; else the
/// one audio file there is; else `target`.
pub open spec fn picked(
    target: Seq<char>,
    wanted: MatchKeys,
    files: Seq<AudioCandidate>,
) -> Seq<char> {
    let n = files.len() as int;
    let exact = first_where(files, |c: AudioCandidate| matches_lowered(c, wanted), 0);
    let loose = first_where(files, |c: AudioCandidate| matches_loose(c, wanted), 0);
    let audio = first_where(files, |c: AudioCandidate| is_audio_path(c.path@), 0);
    if exact < n {
        files[exact].path@
    } else if wanted.loose@.len() > 0 && loose < n {
        files[loose].path@
    } else if audio_count(files) == 1 {
        files[audio].path@
    } else {
        target
    }
}

/// Picks the file that is meant among those beside a cue sheet.
pub fn pick_audio_file(target: &[char], wanted: &MatchKeys, files: &Vec<AudioCandidate>) -> (r: Vec<
    char,
>)
    ensures
        r@ == picked(target@, *wanted, files@),
{
    let n: usize = files.len();
    let mut i: usize = 0;
    let ghost exact = |c: AudioCandidate| matches_lowered(c, *wanted);
    let ghost loose = |c: AudioCandidate| matches_loose(c, *wanted);
    let ghost audio = |c: AudioCandidate| is_audio_path(c.path@);
    while i < n
        invariant
            i <= n,
            n == files@.len(),
            exact == (|c: AudioCandidate| matches_lowered(c, *wanted)),
            first_where(files@, exact, 0) == first_where(files@, exact, i as int),
        decreases n - i,
    {
        let file: &AudioCandidate = &files[i];
        if let Some(keys) = &file.keys {
            if same(keys.lowered.as_slice(), wanted.lowered.as_slice()) {
                return copied(file.path.as_slice());
            }
        }
        i += 1;
    }
    if wanted.loose.len() > 0 {
        let mut i: usize = 0;
        while i < n
            invariant
                i <= n,
                n == files@.len(),
                loose == (|c: AudioCandidate| matches_loose(c, *wanted)),
                wanted.loose@.len() > 0,
                exact == (|c: AudioCandidate| matches_lowered(c, *wanted)),
                first_where(files@, exact, 0) == n,
                first_where(files@, loose, 0) == first_where(files@, loose, i as int),
            decreases n - i,
        {
            let file: &AudioCandidate = &files[i];
            if let Some(keys) = &file.keys {
                if same(keys.loose.as_slice(), wanted.loose.as_slice()) {
                    return copied(file.path.as_slice());
                }
            }
            i += 1;
        }
    }
    let mut count: usize = 0;
    let mut first: usize = n;
    let mut i: usize = 0;
    proof {
        reveal(Seq::filter);
        assert(files@.take(0).filter(audio) =~= Seq::empty());
    }
    while i < n
        invariant
            i <= n,
            n == files@.len(),
            audio == (|c: AudioCandidate| is_audio_path(c.path@)),
            count <= i,
            count == files@.take(i as int).filter(audio).len(),
            first == n ==> count == 0 && first_where(files@, audio, 0) == first_where(
                files@,
                audio,
                i as int,
            ),
            first < n ==> count > 0 && first_where(files@, audio, 0) == first,
            first <= n,
        decreases n - i,
    {
        proof {
            assert(files@.take(i + 1).drop_last() =~= files@.take(i as int));
            assert(files@.take(i + 1).last() == files@[i as int]);
            reveal(Seq::filter);
        }
        if names_audio(files[i].path.as_slice()) {
            count += 1;
            if first == n {
                first = i;
            }
        }
        i += 1;
    }
    assert(files@.take(n as int) =~= files@);
    if count == 1 {
        return copied(files[first].path.as_slice());
    }
    copied(target)
}

fn copied(s: &[char]) -> (r: Vec<char>)
    ensures
        r@ == s@,
{
    let mut r: Vec<char> = Vec::new();
    append(&mut r, s);
    assert(r@ =~= s@);
    r
}

/// The path that a cue sheet names, beside the sheet, whether or not there is
/// such a file. Backslashes count as slashes.
pub open spec fn target_of(cue_dir: Seq<char>, audio_filename: Seq<char>) -> Seq<char> {
    join(cue_dir, replace_char(audio_filename, '\\', '/'))
}

/// The path that a cue sheet names.
pub fn cue_target(cue_dir: &str, audio_filename: &str) -> (r: String)
    ensures
        r@ == target_of(cue_dir@, audio_filename@),
{
    let dir: Vec<char> = to_chars(cue_dir);
    let name: Vec<char> = to_chars(audio_filename);
    let relative: Vec<char> = replaced(name.as_slice(), '\\', '/');
    let target: Vec<char> = path_join(dir.as_slice(), relative.as_slice());
    to_text(target.as_slice())
}

/// The keys of a name.
pub open spec fn has_keys(name: Option<Seq<char>>, keys: Option<MatchKeys>) -> bool {
    match name {
        Some(t) => keys matches Some(k) && k.lowered@ == lowercase(t) && k.loose@ == fuzzy(t),
        None => keys is None,
    }
}

fn keys_of(path: &[char]) -> (r: Option<MatchKeys>)
    ensures
        has_keys(file_name(path@), r),
{
    match path_file_name(path) {
        Some(name) => {
            let text: String = to_text(name.as_slice());
            let lowered: String = to_lowercase(text.as_str());
            let loose: String = normalize_for_fuzzy_match(text.as_str());
            Some(MatchKeys { lowered: to_chars(lowered.as_str()), loose: to_chars(loose.as_str()) })
        },
        None => None,
    }
}

/// The candidates that paths stand for.
pub open spec fn candidates_of(paths: Seq<String>, files: Seq<AudioCandidate>) -> bool {
    &&& files.len() == paths.len()
    &&& forall|i: int|
        0 <= i < files.len() ==> {
            &&& (#[trigger] files[i]).path@ == paths[i]@
            &&& has_keys(file_name(paths[i]@), files[i].keys)
        }
}

/// Finds the file that a cue sheet means by a name. `target_exists` tells
/// whether there is a file at the very path that it names, and `dir_files` are
/// the files beside the sheet, or `None` where they cannot be listed.
pub fn resolve_audio_path(
    cue_dir: &str,
    audio_filename: &str,
    target_exists: bool,
    dir_files: Option<&Vec<String>>,
) -> (r: String)
    ensures
        ({
            let target = target_of(cue_dir@, audio_filename@);
            let name = file_name(replace_char(audio_filename@, '\\', '/'));
            if target_exists || name is None || dir_files is None {
                r@ == target
            } else {
                exists|wanted: MatchKeys, files: Seq<AudioCandidate>|
                    {
                        &&& has_keys(name, Some(wanted))
                        &&& candidates_of(dir_files->0@, files)
                        &&& r@ == #[trigger] picked(target, wanted, files)
                    }
            }
        }),
{
    let target: String = cue_target(cue_dir, audio_filename);
    if target_exists {
        return target;
    }
    let name: Vec<char> = to_chars(audio_filename);
    let relative: Vec<char> = replaced(name.as_slice(), '\\', '/');
    let wanted: MatchKeys = match keys_of(relative.as_slice()) {
        Some(keys) => keys,
        None => {
            return target;
        },
    };
    let paths: &Vec<String> = match dir_files {
        Some(paths) => paths,
        None => {
            return target;
        },
    };
    let n: usize = paths.len();
    let mut files: Vec<AudioCandidate> = Vec::new();
    let mut i: usize = 0;
    while i < n
        invariant
            i <= n,
            n == paths@.len(),
            candidates_of(paths@.take(i as int), files@),
        decreases n - i,
    {
        let path: Vec<char> = to_chars(paths[i].as_str());
        let keys: Option<MatchKeys> = keys_of(path.as_slice());
        let ghost before = files@;
        files.push(AudioCandidate { path, keys });
        assert forall|k: int| 0 <= k < files@.len() implies {
            &&& (#[trigger] files@[k]).path@ == paths@.take(i + 1)[k]@
            &&& has_keys(file_name(paths@.take(i + 1)[k]@), files@[k].keys)
        } by {
            if k < i {
                assert(files@[k] == before[k]);
                assert(paths@.take(i + 1)[k] == paths@.take(i as int)[k]);
            }
        }
        i += 1;
    }
    assert(paths@.take(n as int) =~= paths@);
    let target_chars: Vec<char> = to_chars(target.as_str());
    let found: Vec<char> = pick_audio_file(target_chars.as_slice(), &wanted, &files);
    to_text(found.as_slice())
}

/// A file whose name differs in case only is always preferred, whatever else
/// lies beside the sheet.
pub proof fn law_exact_name_wins(
    target: Seq<char>,
    wanted: MatchKeys,
    files: Seq<AudioCandidate>,
    i: int,
)
    requires
        0 <= i < files.len(),
        matches_lowered(files[i], wanted),
    ensures
        exists|k: int|
            0 <= k <= i && #[trigger] matches_lowered(files[k], wanted) && picked(
                target,
                wanted,
                files,
            ) == files[k].path@,
{
    let p = |c: AudioCandidate| matches_lowered(c, wanted);
    lemma_first_where(files, p, 0, i);
    let k = first_where(files, p, 0);
    assert(p(files[k]));
    assert(matches_lowered(files[k], wanted));
}

proof fn lemma_first_where(
    files: Seq<AudioCandidate>,
    p: spec_fn(AudioCandidate) -> bool,
    from: int,
    i: int,
)
    requires
        0 <= from <= i < files.len(),
        p(files[i]),
    ensures
        from <= first_where(files, p, from) <= i,
        p(files[first_where(files, p, from)]),
    decreases i - from,
{
    if !p(files[from]) {
        lemma_first_where(files, p, from + 1, i);
    }
}

/// A loose name is made character by character: letters, figures and everything
/// beyond ASCII stay, in lower case; the rest is left out.
pub proof fn law_loose_names_leave_marks_out(a: Seq<char>, c: char, b: Seq<char>)
    ensures
        fuzzy(a + b) == fuzzy(a) + fuzzy(b),
        c >= '\u{80}' || ('0' <= c && c <= '9') || ('a' <= c && c <= 'z') || ('A' <= c && c <= 'Z')
            ==> fuzzy(seq![c]) == char_lowercase(c),
        c < '\u{80}' && !('0' <= c && c <= '9') && !('a' <= c && c <= 'z') && !('A' <= c && c <= 'Z')
            ==> fuzzy(a + seq![c] + b) == fuzzy(a + b),
{
    lemma_fuzzy_joins(a, b);
    lemma_fuzzy_joins(a + seq![c], b);
    lemma_fuzzy_joins(a, seq![c]);
    reveal_with_fuel(fuzzy, 2);
    assert(seq![c].drop_last() =~= Seq::empty());
    assert(fuzzy(seq![c].drop_last()) =~= Seq::empty());
    assert(Seq::<char>::empty() + char_lowercase(c) =~= char_lowercase(c));
    assert(fuzzy(a) + Seq::<char>::empty() =~= fuzzy(a));
}

proof fn lemma_fuzzy_joins(a: Seq<char>, b: Seq<char>)
    ensures
        fuzzy(a + b) == fuzzy(a) + fuzzy(b),
    decreases b.len(),
{
    if b.len() == 0 {
        assert(a + b =~= a);
        assert(fuzzy(a) + fuzzy(b) =~= fuzzy(a));
    } else {
        lemma_fuzzy_joins(a, b.drop_last());
        assert((a + b).drop_last() =~= a + b.drop_last());
        assert((a + b).last() == b.last());
        assert(fuzzy(a + b) =~= fuzzy(a) + fuzzy(b));
    }
}

/// A file holds audio by its extension, in either case.
pub proof fn law_audio_is_told_by_its_extension(dir: Seq<char>, stem: Seq<char>, ext: Seq<char>)
    requires
        stem.len() > 0,
        ext.len() > 0,
        forall|k: int| 0 <= k < stem.len() ==> #[trigger] stem[k] != '/',
        forall|k: int| 0 <= k < ext.len() ==> #[trigger] ext[k] != '/' && ext[k] != '.',
    ensures
        is_audio_path(dir + seq!['/'] + (stem + seq!['.'] + ext)) <==> {
            let x = ascii_lower_all(ext);
            ||| x == "flac"@ || x == "wav"@ || x == "ape"@
            ||| x == "mp3"@ || x == "m4a"@ || x == "aac"@
            ||| x == "ogg"@ || x == "opus"@ || x == "wma"@
            ||| x == "dsf"@ || x == "dff"@ || x == "iso"@
        },
{
    crate::path::law_a_file_has_its_extension(dir, stem, ext);
}

/// Where no file has the wanted name, the first whose loose name is that one is
/// taken; a wanted name of marks alone has no loose name to go by.
pub proof fn law_a_loose_name_is_the_second_choice(
    target: Seq<char>,
    wanted: MatchKeys,
    files: Seq<AudioCandidate>,
    i: int,
)
    requires
        0 <= i < files.len(),
        forall|k: int|
            0 <= k < files.len() ==> ((#[trigger] files[k]).keys matches Some(n) ==> n.lowered@
                != wanted.lowered@),
        files[i].keys matches Some(n) && n.loose@ == wanted.loose@,
        wanted.loose@.len() > 0,
    ensures
        exists|k: int|
            0 <= k <= i && ((#[trigger] files[k]).keys matches Some(n) && n.loose@ == wanted.loose@)
                && picked(target, wanted, files) == files[k].path@,
{
    let exact = |c: AudioCandidate| matches_lowered(c, wanted);
    let loose = |c: AudioCandidate| matches_loose(c, wanted);
    lemma_none_where(files, exact, 0);
    lemma_first_where(files, loose, 0, i);
    let k = first_where(files, loose, 0);
    assert(loose(files[k]));
}

proof fn lemma_none_where(
    files: Seq<AudioCandidate>,
    p: spec_fn(AudioCandidate) -> bool,
    from: int,
)
    requires
        0 <= from <= files.len(),
        forall|k: int| 0 <= k < files.len() ==> !p(#[trigger] files[k]),
    ensures
        first_where(files, p, from) == files.len(),
    decreases files.len() - from,
{
    if from < files.len() {
        lemma_none_where(files, p, from + 1);
    }
}

/// Where no name fits, the only audio file of a directory is taken, and the wanted
/// one as it stands where there are several or none.
pub proof fn law_a_single_audio_file_is_the_last_choice(
    target: Seq<char>,
    wanted: MatchKeys,
    files: Seq<AudioCandidate>,
    i: int,
    j: int,
)
    requires
        0 <= i < files.len(),
        0 <= j < files.len(),
        forall|k: int|
            0 <= k < files.len() ==> ((#[trigger] files[k]).keys matches Some(n) ==> n.lowered@
                != wanted.lowered@ && n.loose@ != wanted.loose@),
    ensures
        is_audio_path(files[i].path@) && (forall|k: int|
            0 <= k < files.len() && k != i ==> !is_audio_path((#[trigger] files[k]).path@))
            ==> picked(target, wanted, files) == files[i].path@,
        i < j && is_audio_path(files[i].path@) && is_audio_path(files[j].path@) ==> picked(
            target,
            wanted,
            files,
        ) == target,
        (forall|k: int| 0 <= k < files.len() ==> !is_audio_path((#[trigger] files[k]).path@))
            ==> picked(target, wanted, files) == target,
{
    let exact = |c: AudioCandidate| matches_lowered(c, wanted);
    let loose = |c: AudioCandidate| matches_loose(c, wanted);
    let audio = |c: AudioCandidate| is_audio_path(c.path@);
    lemma_none_where(files, exact, 0);
    lemma_none_where(files, loose, 0);
    let front = files.take(i);
    let back = files.skip(i + 1);
    assert(files =~= front + seq![files[i]] + back);
    Seq::filter_distributes_over_add(front + seq![files[i]], back, audio);
    Seq::filter_distributes_over_add(front, seq![files[i]], audio);
    reveal(Seq::filter);
    reveal_with_fuel(Seq::filter, 2);
    assert(seq![files[i]].drop_last() =~= Seq::empty());
    if is_audio_path(files[i].path@) {
        assert(seq![files[i]].filter(audio).len() == 1);
        lemma_first_where(files, audio, 0, i);
        if forall|k: int|
            0 <= k < files.len() && k != i ==> !is_audio_path((#[trigger] files[k]).path@) {
            assert forall|k: int| 0 <= k < front.len() implies !audio(#[trigger] front[k]) by {
                assert(front[k] == files[k]);
            }
            assert forall|k: int| 0 <= k < back.len() implies !audio(#[trigger] back[k]) by {
                assert(back[k] == files[i + 1 + k]);
            }
            lemma_none_kept(front, audio);
            lemma_none_kept(back, audio);
            let k = first_where(files, audio, 0);
            assert(audio(files[k]));
        }
        if i < j && is_audio_path(files[j].path@) {
            assert(back[j - i - 1] == files[j]);
            back.lemma_filter_contains(audio, j - i - 1);
            assert(back.filter(audio).len() > 0);
        }
    }
    if forall|k: int| 0 <= k < files.len() ==> !is_audio_path((#[trigger] files[k]).path@) {
        lemma_none_kept(files, audio);
    }
}

proof fn lemma_none_kept(files: Seq<AudioCandidate>, p: spec_fn(AudioCandidate) -> bool)
    requires
        forall|k: int| 0 <= k < files.len() ==> !p(#[trigger] files[k]),
    ensures
        files.filter(p).len() == 0,
    decreases files.len(),
{
    reveal(Seq::filter);
    if files.len() > 0 {
        assert forall|k: int| 0 <= k < files.len() - 1 implies !p(
            #[trigger] files.drop_last()[k],
        ) by {
            assert(files.drop_last()[k] == files[k]);
        }
        lemma_none_kept(files.drop_last(), p);
        assert(!p(files[files.len() - 1]));
    }
}

/// The file that a sheet names lies beside the sheet, and backslashes in its name
/// are slashes.
pub proof fn law_a_named_file_lies_beside_its_sheet(
    dir: Seq<char>,
    name: Seq<char>,
    sub: Seq<char>,
)
    requires
        name.len() > 0,
        name != seq!['.'],
        name != seq!['.', '.'],
        forall|k: int| 0 <= k < name.len() ==> #[trigger] name[k] != '/' && name[k] != '\\',
    ensures
        file_name(target_of(dir, name)) == Some(name),
        file_name(target_of(dir, sub + seq!['\\'] + name)) == Some(name),
{
    let plain = replace_char(name, '\\', '/');
    assert(plain =~= name);
    crate::path::law_a_file_is_named_behind_its_directory(dir, name);
    let deep = sub + seq!['\\'] + name;
    let slashed = replace_char(sub, '\\', '/');
    let low = replace_char(deep, '\\', '/');
    assert forall|k: int| 0 <= k < low.len() implies #[trigger] low[k] == (slashed + seq!['/']
        + name)[k] by {
        let n = sub.len() as int;
        if k > n {
            assert(deep[k] == name[k - n - 1]);
        }
    }
    assert(low =~= slashed + seq!['/'] + name);
    crate::path::law_a_file_is_named_behind_its_directory(slashed, name);
    let joined = join(dir, low);
    if crate::path::is_absolute(low) || dir.len() == 0 {
    } else if dir.last() == '/' {
        assert(joined =~= (dir + slashed) + seq!['/'] + name);
        crate::path::law_a_file_is_named_behind_its_directory(dir + slashed, name);
    } else {
        assert(joined =~= (dir.push('/') + slashed) + seq!['/'] + name);
        crate::path::law_a_file_is_named_behind_its_directory(dir.push('/') + slashed, name);
    }
}

/// Candidates are the paths of the directory, each told by the name of its file in
/// lower case and loosely.
pub proof fn law_candidates_are_told_by_their_names(
    paths: Seq<String>,
    files: Seq<AudioCandidate>,
    i: int,
)
    requires
        candidates_of(paths, files),
        0 <= i < paths.len(),
    ensures
        files.len() == paths.len(),
        files[i].path@ == paths[i]@,
        file_name(paths[i]@) is None ==> files[i].keys is None,
        file_name(paths[i]@) matches Some(name) ==> (files[i].keys matches Some(k) && k.lowered@
            == lowercase(name) && k.loose@ == fuzzy(name)),
{
}

} // verus!
