//! Cover images beside an audio file: which of the images in its directory, in
//! directories of scans and in the directory above is the cover.

use vstd::prelude::*;

use crate::cue::parser::{string_of, strings};
use crate::path::{
    extension, file_name, file_stem, name_back, path_extension, path_file_name, path_file_stem,
    path_name_back,
};
use crate::text::{
    append, append_literal, ascii_lower_all, contains_literal, contains_text, is_literal, same,
    texts, to_ascii_lower, to_chars, to_text,
};

verus! {

/// Names of covers, the most telling first.
pub open spec fn cover_names() -> Seq<Seq<char>> {
    seq![
        "cover"@,
        "folder"@,
        "front"@,
        "album"@,
        "cd"@,
        "cd1"@,
        "cd2"@,
        "cdimage"@,
        "back"@,
        "disc"@,
        "封面"@,
        "封套"@,
        "试音极品"@,
        "试音"@,
    ]
}

/// Extensions of images, the preferred first.
pub open spec fn cover_extensions() -> Seq<Seq<char>> {
    seq!["jpg"@, "jpeg"@, "png"@, "webp"@, "bmp"@]
}

/// Directories, beside an audio file, that hold scans; looked into in this
/// order.
pub open spec fn cover_directories() -> Seq<Seq<char>> {
    seq![
        "Artwork"@,
        "Scans"@,
        "Covers"@,
        "Pictures"@,
        "封面"@,
        "artwork"@,
        "scans"@,
        "covers"@,
        "pictures"@,
        "scan"@,
        "pic"@,
    ]
}

/// Number of cover names.
pub const COVER_NAME_COUNT: usize = 14;

/// Number of image extensions.
pub const COVER_EXT_COUNT: usize = 5;

/// Number of directories that hold scans.
pub const COVER_DIR_COUNT: usize = 11;

fn cover_name(i: usize) -> (r: &'static str)
    requires
        i < COVER_NAME_COUNT,
    ensures
        r@ == cover_names()[i as int],
{
    if i == 0 {
        "cover"
    } else if i == 1 {
        "folder"
    } else if i == 2 {
        "front"
    } else if i == 3 {
        "album"
    } else if i == 4 {
        "cd"
    } else if i == 5 {
        "cd1"
    } else if i == 6 {
        "cd2"
    } else if i == 7 {
        "cdimage"
    } else if i == 8 {
        "back"
    } else if i == 9 {
        "disc"
    } else if i == 10 {
        "封面"
    } else if i == 11 {
        "封套"
    } else if i == 12 {
        "试音极品"
    } else {
        "试音"
    }
}

fn cover_extension(i: usize) -> (r: &'static str)
    requires
        i < COVER_EXT_COUNT,
    ensures
        r@ == cover_extensions()[i as int],
{
    if i == 0 {
        "jpg"
    } else if i == 1 {
        "jpeg"
    } else if i == 2 {
        "png"
    } else if i == 3 {
        "webp"
    } else {
        "bmp"
    }
}

/// A directory, beside an audio file, that holds scans.
pub fn cover_directory(i: usize) -> (r: &'static str)
    requires
        i < COVER_DIR_COUNT,
    ensures
        r@ == cover_directories()[i as int],
{
    if i == 0 {
        "Artwork"
    } else if i == 1 {
        "Scans"
    } else if i == 2 {
        "Covers"
    } else if i == 3 {
        "Pictures"
    } else if i == 4 {
        "封面"
    } else if i == 5 {
        "artwork"
    } else if i == 6 {
        "scans"
    } else if i == 7 {
        "covers"
    } else if i == 8 {
        "pictures"
    } else if i == 9 {
        "scan"
    } else {
        "pic"
    }
}

/// Whether a path is that of an image.
pub open spec fn is_image(path: Seq<char>) -> bool {
    match extension(path) {
        Some(e) => cover_extensions().contains(ascii_lower_all(e)),
        None => false,
    }
}

/// Tests whether a path is that of an image.
pub fn names_image(path: &[char]) -> (r: bool)
    ensures
        r == is_image(path@),
{
    match path_extension(path) {
        Some(e) => {
            let x: Vec<char> = to_ascii_lower(e.as_slice());
            let mut i: usize = 0;
            while i < COVER_EXT_COUNT
                invariant
                    i <= COVER_EXT_COUNT,
                    x@ == ascii_lower_all(e@),
                    extension(path@) == Some(e@),
                    forall|k: int| 0 <= k < i ==> cover_extensions()[k] != x@,
                decreases COVER_EXT_COUNT - i,
            {
                if is_literal(x.as_slice(), cover_extension(i)) {
                    assert(cover_extensions()[i as int] == x@);
                    return true;
                }
                i += 1;
            }
            assert(cover_extensions().len() == COVER_EXT_COUNT);
            false
        },
        None => false,
    }
}

/// The images among files.
pub open spec fn images_of(files: Seq<Seq<char>>) -> Seq<Seq<char>> {
    files.filter(|p: Seq<char>| is_image(p))
}

/// Picks the images among the files of a directory.
pub fn list_dir_images(files: &Vec<String>) -> (r: Vec<Vec<char>>)
    ensures
        texts(r@) == images_of(strings(files@)),
{
    let n: usize = files.len();
    let ghost all = strings(files@);
    let ghost keep = |p: Seq<char>| is_image(p);
    let mut r: Vec<Vec<char>> = Vec::new();
    let mut i: usize = 0;
    proof {
        reveal(Seq::filter);
        assert(texts(r@) =~= all.take(0).filter(keep));
    }
    while i < n
        invariant
            i <= n,
            n == files@.len(),
            all == strings(files@),
            keep == (|p: Seq<char>| is_image(p)),
            texts(r@) == all.take(i as int).filter(keep),
        decreases n - i,
    {
        let path: Vec<char> = to_chars(files[i].as_str());
        let ghost before = r@;
        proof {
            assert(all[i as int] == path@);
            assert(all.take(i + 1).drop_last() =~= all.take(i as int));
            reveal(Seq::filter);
        }
        if names_image(path.as_slice()) {
            r.push(path);
            assert(texts(r@) =~= texts(before).push(path@));
        }
        i += 1;
    }
    assert(all.take(n as int) =~= all);
    r
}

/// Whether a path has a name, in whatever case.
pub open spec fn has_name(path: Seq<char>, name: Seq<char>) -> bool {
    match file_name(path) {
        Some(n) => ascii_lower_all(n) == ascii_lower_all(name),
        None => false,
    }
}

/// Position of the first path at or after `from` that has a name, or the number
/// of paths.
pub open spec fn first_named(paths: Seq<Seq<char>>, name: Seq<char>, from: int) -> int
    decreases paths.len() - from,
{
    if 0 <= from < paths.len() && !has_name(paths[from], name) {
        first_named(paths, name, from + 1)
    } else {
        from
    }
}

/// Looks for a name, in whatever case.
pub fn find_case_insensitive(entries: &Vec<Vec<char>>, target: &[char]) -> (r: Option<usize>)
    ensures
        match r {
            Some(i) => i < entries@.len() && i == first_named(texts(entries@), target@, 0),
            None => first_named(texts(entries@), target@, 0) == entries@.len(),
        },
{
    let lowered: Vec<char> = to_ascii_lower(target);
    let n: usize = entries.len();
    let ghost all = texts(entries@);
    let mut i: usize = 0;
    while i < n
        invariant
            i <= n,
            n == entries@.len(),
            all == texts(entries@),
            lowered@ == ascii_lower_all(target@),
            first_named(all, target@, 0) == first_named(all, target@, i as int),
        decreases n - i,
    {
        assert(all[i as int] == entries@[i as int]@);
        if let Some(name) = path_file_name(entries[i].as_slice()) {
            let name_lowered: Vec<char> = to_ascii_lower(name.as_slice());
            if same(name_lowered.as_slice(), lowered.as_slice()) {
                return Some(i);
            }
        }
        i += 1;
    }
    None
}

/// A name with an extension.
pub open spec fn dotted(name: Seq<char>, ext: Seq<char>) -> Seq<char> {
    name + seq!['.'] + ext
}

/// The first image, of a base name and the extensions from `from` on in turn.
pub open spec fn by_extension(images: Seq<Seq<char>>, base: Seq<char>, from: int) -> Option<
    Seq<char>,
>
    decreases COVER_EXT_COUNT - from,
{
    if 0 <= from < COVER_EXT_COUNT {
        let k = first_named(images, dotted(base, cover_extensions()[from]), 0);
        if k < images.len() {
            Some(images[k])
        } else {
            by_extension(images, base, from + 1)
        }
    } else {
        None
    }
}

fn find_by_extension(entries: &Vec<Vec<char>>, base: &[char]) -> (r: Option<usize>)
    ensures
        match r {
            Some(i) => i < entries@.len() && by_extension(texts(entries@), base@, 0) == Some(
                texts(entries@)[i as int],
            ),
            None => by_extension(texts(entries@), base@, 0) is None,
        },
{
    let ghost all = texts(entries@);
    let mut i: usize = 0;
    while i < COVER_EXT_COUNT
        invariant
            i <= COVER_EXT_COUNT,
            all == texts(entries@),
            by_extension(all, base@, 0) == by_extension(all, base@, i as int),
        decreases COVER_EXT_COUNT - i,
    {
        let mut target: Vec<char> = Vec::new();
        append(&mut target, base);
        target.push('.');
        append_literal(&mut target, cover_extension(i));
        assert(target@ =~= dotted(base@, cover_extensions()[i as int]));
        if let Some(k) = find_case_insensitive(entries, target.as_slice()) {
            return Some(k);
        }
        i += 1;
    }
    None
}

/// The first image whose name is one of a cover, the names from `from` on in
/// turn.
pub open spec fn by_cover_name(images: Seq<Seq<char>>, from: int) -> Option<Seq<char>>
    decreases COVER_NAME_COUNT - from,
{
    if 0 <= from < COVER_NAME_COUNT {
        match by_extension(images, cover_names()[from], 0) {
            Some(p) => Some(p),
            None => by_cover_name(images, from + 1),
        }
    } else {
        None
    }
}

/// Whether a text holds a certain cover name.
pub open spec fn holds_name(lowered: Seq<char>, i: int) -> bool {
    contains_text(lowered, cover_names()[i])
}

/// Whether a text holds a cover name.
pub open spec fn holds_any_name(lowered: Seq<char>) -> bool {
    exists|i: int| 0 <= i < COVER_NAME_COUNT && #[trigger] holds_name(lowered, i)
}

/// Whether the name of an image holds that of a cover.
pub open spec fn hints_at_cover(path: Seq<char>) -> bool {
    match file_stem(path) {
        Some(stem) => holds_any_name(ascii_lower_all(stem)),
        None => false,
    }
}

fn hints(path: &[char]) -> (r: bool)
    ensures
        r == hints_at_cover(path@),
{
    match path_file_stem(path) {
        Some(stem) => {
            let lowered: Vec<char> = to_ascii_lower(stem.as_slice());
            let mut i: usize = 0;
            while i < COVER_NAME_COUNT
                invariant
                    i <= COVER_NAME_COUNT,
                    lowered@ == ascii_lower_all(stem@),
                    file_stem(path@) == Some(stem@),
                    forall|k: int| 0 <= k < i ==> !#[trigger] holds_name(lowered@, k),
                decreases COVER_NAME_COUNT - i,
            {
                if contains_literal(lowered.as_slice(), cover_name(i)) {
                    assert(holds_name(lowered@, i as int));
                    assert(holds_any_name(lowered@));
                    return true;
                }
                assert(!holds_name(lowered@, i as int));
                i += 1;
            }
            false
        },
        None => false,
    }
}

/// Position of the first image at or after `from` whose name holds that of a
/// cover, or the number of images.
pub open spec fn first_hint(images: Seq<Seq<char>>, from: int) -> int
    decreases images.len() - from,
{
    if 0 <= from < images.len() && !hints_at_cover(images[from]) {
        first_hint(images, from + 1)
    } else {
        from
    }
}

/// The cover among the images of a directory: by name; else by a hint in the
/// name; else the first image, where the directory is for scans or holds but
/// one.
pub open spec fn cover_in(images: Seq<Seq<char>>, is_subdir: bool) -> Option<Seq<char>> {
    if images.len() == 0 {
        None
    } else if by_cover_name(images, 0) is Some {
        by_cover_name(images, 0)
    } else if first_hint(images, 0) < images.len() {
        Some(images[first_hint(images, 0)])
    } else if is_subdir || images.len() == 1 {
        Some(images[0])
    } else {
        None
    }
}

fn find_named(entries: &Vec<Vec<char>>) -> (r: Option<usize>)
    ensures
        match r {
            Some(i) => i < entries@.len() && by_cover_name(texts(entries@), 0) == Some(
                texts(entries@)[i as int],
            ),
            None => by_cover_name(texts(entries@), 0) is None,
        },
{
    let ghost all = texts(entries@);
    let mut i: usize = 0;
    while i < COVER_NAME_COUNT
        invariant
            i <= COVER_NAME_COUNT,
            all == texts(entries@),
            by_cover_name(all, 0) == by_cover_name(all, i as int),
        decreases COVER_NAME_COUNT - i,
    {
        let base: Vec<char> = to_chars(cover_name(i));
        if let Some(k) = find_by_extension(entries, base.as_slice()) {
            return Some(k);
        }
        i += 1;
    }
    None
}

/// Looks for an image with the name of a cover among the files of a directory.
fn search_dir_by_name(files: &Vec<String>) -> (r: Option<String>)
    ensures
        string_of(r) == by_cover_name(images_of(strings(files@)), 0),
{
    let entries: Vec<Vec<char>> = list_dir_images(files);
    match find_named(&entries) {
        Some(k) => {
            assert(texts(entries@)[k as int] == entries@[k as int]@);
            Some(to_text(entries[k].as_slice()))
        },
        None => None,
    }
}

/// Looks for the cover among the files of a directory.
pub fn search_dir_for_cover(files: &Vec<String>, is_subdir: bool) -> (r: Option<String>)
    ensures
        string_of(r) == cover_in(images_of(strings(files@)), is_subdir),
{
    let entries: Vec<Vec<char>> = list_dir_images(files);
    let ghost all = texts(entries@);
    let n: usize = entries.len();
    assert(all.len() == n);
    if n == 0 {
        return None;
    }
    if let Some(k) = find_named(&entries) {
        assert(all[k as int] == entries@[k as int]@);
        return Some(to_text(entries[k].as_slice()));
    }
    let mut i: usize = 0;
    while i < n
        invariant
            i <= n,
            n == entries@.len(),
            n > 0,
            all == texts(entries@),
            all == images_of(strings(files@)),
            by_cover_name(all, 0) is None,
            first_hint(all, 0) == first_hint(all, i as int),
        decreases n - i,
    {
        assert(all[i as int] == entries@[i as int]@);
        if hints(entries[i].as_slice()) {
            return Some(to_text(entries[i].as_slice()));
        }
        i += 1;
    }
    if is_subdir || n == 1 {
        assert(all[0] == entries@[0]@);
        return Some(to_text(entries[0].as_slice()));
    }
    None
}

/// The first cover among directories of scans, from `from` on.
pub open spec fn cover_in_any(dirs: Seq<Seq<Seq<char>>>, from: int) -> Option<Seq<char>>
    decreases dirs.len() - from,
{
    if 0 <= from < dirs.len() {
        match cover_in(images_of(dirs[from]), true) {
            Some(p) => Some(p),
            None => cover_in_any(dirs, from + 1),
        }
    } else {
        None
    }
}

/// Whether the directory above is looked into: not where it has no name, or one
/// that stands for a whole collection.
pub open spec fn parent_counts(dir: Seq<char>) -> bool {
    match name_back(dir, 1) {
        Some(name) => name.len() > 0 && name != "music"@ && name != "media"@,
        None => false,
    }
}

fn parent_is_searched(dir: &str) -> (r: bool)
    ensures
        r == parent_counts(dir@),
{
    let chars: Vec<char> = to_chars(dir);
    match path_name_back(chars.as_slice(), 1) {
        Some(name) => name.len() > 0 && !is_literal(name.as_slice(), "music") && !is_literal(
            name.as_slice(),
            "media",
        ),
        None => false,
    }
}

/// The files around an audio file.
pub struct FolderListing {
    /// Files of its directory; `None` where they cannot be listed.
    pub here: Option<Vec<String>>,
    /// Files of the directories of scans that there are, in their order.
    pub scans: Vec<Vec<String>>,
    /// Files of the directory above; `None` where they cannot be listed.
    pub above: Option<Vec<String>>,
}

/// The paths of a list of files.
pub open spec fn listed(files: Option<Vec<String>>) -> Option<Seq<Seq<char>>> {
    match files {
        Some(v) => Some(strings(v@)),
        None => None,
    }
}

/// The paths of the directories of scans.
pub open spec fn scans_of(scans: Seq<Vec<String>>) -> Seq<Seq<Seq<char>>> {
    scans.map_values(|v: Vec<String>| strings(v@))
}

/// The cover in a directory that may not be listed.
pub open spec fn cover_if_listed(files: Option<Seq<Seq<char>>>) -> Option<Seq<char>> {
    match files {
        Some(paths) => cover_in(images_of(paths), false),
        None => None,
    }
}

/// The image with the name of a cover in a directory that may not be listed.
pub open spec fn named_if_listed(files: Option<Seq<Seq<char>>>) -> Option<Seq<char>> {
    match files {
        Some(paths) => by_cover_name(images_of(paths), 0),
        None => None,
    }
}

/// The image with the name of an audio file.
pub open spec fn namesake(audio: Seq<char>, files: Option<Seq<Seq<char>>>) -> Option<Seq<char>> {
    match (file_stem(audio), files) {
        (Some(stem), Some(paths)) => by_extension(images_of(paths), stem, 0),
        _ => None,
    }
}

/// The cover of an audio file in `dir`: an image of its directory with the name
/// of a cover, one of the directories of scans, the image with its own name,
/// another image of its directory, and one of the directory above, in this order.
pub open spec fn cover_of(
    audio: Seq<char>,
    dir: Seq<char>,
    here: Option<Seq<Seq<char>>>,
    scans: Seq<Seq<Seq<char>>>,
    above: Option<Seq<Seq<char>>>,
) -> Option<Seq<char>> {
    if named_if_listed(here) is Some {
        named_if_listed(here)
    } else if cover_in_any(scans, 0) is Some {
        cover_in_any(scans, 0)
    } else if namesake(audio, here) is Some {
        namesake(audio, here)
    } else if cover_if_listed(here) is Some {
        cover_if_listed(here)
    } else if parent_counts(dir) {
        cover_if_listed(above)
    } else {
        None
    }
}

fn search_scans(scans: &Vec<Vec<String>>) -> (r: Option<String>)
    ensures
        string_of(r) == cover_in_any(scans_of(scans@), 0),
{
    let n: usize = scans.len();
    let ghost all = scans_of(scans@);
    let mut i: usize = 0;
    while i < n
        invariant
            i <= n,
            n == scans@.len(),
            all == scans_of(scans@),
            cover_in_any(all, 0) == cover_in_any(all, i as int),
        decreases n - i,
    {
        assert(all[i as int] == strings(scans@[i as int]@));
        let found: Option<String> = search_dir_for_cover(&scans[i], true);
        if found.is_some() {
            return found;
        }
        i += 1;
    }
    None
}

fn find_namesake(audio_path: &str, files: &Vec<String>) -> (r: Option<String>)
    ensures
        string_of(r) == namesake(audio_path@, Some(strings(files@))),
{
    let audio: Vec<char> = to_chars(audio_path);
    match path_file_stem(audio.as_slice()) {
        Some(stem) => {
            let entries: Vec<Vec<char>> = list_dir_images(files);
            match find_by_extension(&entries, stem.as_slice()) {
                Some(k) => {
                    assert(texts(entries@)[k as int] == entries@[k as int]@);
                    Some(to_text(entries[k].as_slice()))
                },
                None => None,
            }
        },
        None => None,
    }
}

/// Finds the cover of an audio file, or of a directory, that lies in `dir`.
pub fn find_folder_cover(audio_path: &str, dir: &str, listing: &FolderListing) -> (r: Option<String>)
    ensures
        string_of(r) == cover_of(
            audio_path@,
            dir@,
            listed(listing.here),
            scans_of(listing.scans@),
            listed(listing.above),
        ),
{
    if let Some(files) = &listing.here {
        let found: Option<String> = search_dir_by_name(files);
        if found.is_some() {
            return found;
        }
    }
    let found: Option<String> = search_scans(&listing.scans);
    if found.is_some() {
        return found;
    }
    if let Some(files) = &listing.here {
        let found: Option<String> = find_namesake(audio_path, files);
        if found.is_some() {
            return found;
        }
        let found: Option<String> = search_dir_for_cover(files, false);
        if found.is_some() {
            return found;
        }
    }
    if parent_is_searched(dir) {
        if let Some(files) = &listing.above {
            return search_dir_for_cover(files, false);
        }
    }
    None
}

/// An image of the directory whose name is not that of a cover never comes before
/// the directories of scans, nor before the image with the name of the file.
pub proof fn law_scans_and_namesake_come_before_other_images(
    audio: Seq<char>,
    dir: Seq<char>,
    here: Option<Seq<Seq<char>>>,
    scans: Seq<Seq<Seq<char>>>,
    above: Option<Seq<Seq<char>>>,
)
    requires
        named_if_listed(here) is None,
    ensures
        cover_in_any(scans, 0) is Some ==> cover_of(audio, dir, here, scans, above)
            == cover_in_any(scans, 0),
        cover_in_any(scans, 0) is None && namesake(audio, here) is Some ==> cover_of(
            audio,
            dir,
            here,
            scans,
            above,
        ) == namesake(audio, here),
{
}

/// Several images without a telling name are no cover, except in a directory of
/// scans.
pub proof fn law_nameless_images_are_no_cover(images: Seq<Seq<char>>)
    requires
        images.len() > 1,
        by_cover_name(images, 0) is None,
        forall|i: int| 0 <= i < images.len() ==> !#[trigger] hints_at_cover(images[i]),
    ensures
        cover_in(images, false) is None,
        cover_in(images, true) == Some(images[0]),
{
    lemma_no_hint(images, 0);
}

proof fn lemma_no_hint(images: Seq<Seq<char>>, from: int)
    requires
        0 <= from <= images.len(),
        forall|i: int| 0 <= i < images.len() ==> !#[trigger] hints_at_cover(images[i]),
    ensures
        first_hint(images, from) == images.len(),
    decreases images.len() - from,
{
    if from < images.len() {
        lemma_no_hint(images, from + 1);
    }
}

/// What is found is one of the images of the directory.
pub proof fn law_cover_is_an_image_of_the_directory(files: Seq<Seq<char>>, is_subdir: bool)
    ensures
        cover_in(images_of(files), is_subdir) matches Some(p) ==> files.contains(p) && is_image(p),
{
    let images = images_of(files);
    lemma_by_cover_name_in(images, 0);
    lemma_first_hint_bound(images, 0);
    if let Some(p) = cover_in(images, is_subdir) {
        assert(images.contains(p));
        let keep = |p: Seq<char>| is_image(p);
        files.lemma_filter_contains_rev(keep, p);
        let i = choose|i: int| 0 <= i < images.len() && images[i] == p;
        files.lemma_filter_pred(keep, i);
    }
}

proof fn lemma_first_hint_bound(images: Seq<Seq<char>>, from: int)
    requires
        0 <= from <= images.len(),
    ensures
        from <= first_hint(images, from) <= images.len(),
    decreases images.len() - from,
{
    if from < images.len() {
        lemma_first_hint_bound(images, from + 1);
    }
}

proof fn lemma_first_named_bound(images: Seq<Seq<char>>, name: Seq<char>, from: int)
    requires
        0 <= from <= images.len(),
    ensures
        from <= first_named(images, name, from) <= images.len(),
    decreases images.len() - from,
{
    if from < images.len() {
        lemma_first_named_bound(images, name, from + 1);
    }
}

proof fn lemma_by_extension_in(images: Seq<Seq<char>>, base: Seq<char>, from: int)
    requires
        0 <= from,
    ensures
        by_extension(images, base, from) matches Some(p) ==> images.contains(p),
    decreases COVER_EXT_COUNT - from,
{
    if from < COVER_EXT_COUNT {
        lemma_first_named_bound(images, dotted(base, cover_extensions()[from]), 0);
        lemma_by_extension_in(images, base, from + 1);
    }
}

pub proof fn lemma_by_cover_name_in(images: Seq<Seq<char>>, from: int)
    requires
        0 <= from,
    ensures
        by_cover_name(images, from) matches Some(p) ==> images.contains(p),
    decreases COVER_NAME_COUNT - from,
{
    if from < COVER_NAME_COUNT {
        lemma_by_extension_in(images, cover_names()[from], 0);
        lemma_by_cover_name_in(images, from + 1);
    }
}

} // verus!
