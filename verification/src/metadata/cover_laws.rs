//! Which picture is a cover and when its thumbnail is made anew, told by the files at
//! hand.

use vstd::prelude::*;

use super::cover::{
    block_side, directory_thumb, fits_in_memory, is_directory_thumb, is_jpeg, is_jpeg_within,
    kept_side, refresh_needed, shrinks, side_limit, thumb_name, track_thumb,
};
use super::folder_cover::{
    by_cover_name, by_extension, cover_directories, cover_extensions, cover_in, cover_in_any,
    cover_names, cover_of, dotted, first_hint, first_named, has_name, hints_at_cover, images_of,
    is_image, namesake, parent_counts,
};
use super::laws::is_plain_name;
use crate::number::{hex_digits, law_hex_digits_count_in_sixteens};
use crate::path::{
    components, law_a_file_has_its_extension, law_a_file_is_named_behind_its_directory,
    law_a_slash_sets_off_a_component, same_path,
};
use crate::text::{
    ascii_lower_all, begins_with, finishes_with, law_a_text_is_found_where_it_stands,
};

verus! {

/// The names that covers go by, in their order, with the extensions of pictures and
/// the directories that hold scans.
pub proof fn law_covers_go_by_these_names()
    ensures
        cover_names().take(7) == seq![
            "cover"@,
            "folder"@,
            "front"@,
            "album"@,
            "cd"@,
            "cd1"@,
            "cd2"@,
        ],
        cover_names().skip(7) == seq![
            "cdimage"@,
            "back"@,
            "disc"@,
            "封面"@,
            "封套"@,
            "试音极品"@,
            "试音"@,
        ],
        cover_extensions() == seq!["jpg"@, "jpeg"@, "png"@, "webp"@, "bmp"@],
        cover_directories().take(5) == seq!["Artwork"@, "Scans"@, "Covers"@, "Pictures"@, "封面"@],
        cover_directories().skip(5) == seq![
            "artwork"@,
            "scans"@,
            "covers"@,
            "pictures"@,
            "scan"@,
            "pic"@,
        ],
{
    assert(cover_names().take(7) =~= seq![
        "cover"@,
        "folder"@,
        "front"@,
        "album"@,
        "cd"@,
        "cd1"@,
        "cd2"@,
    ]);
    assert(cover_names().skip(7) =~= seq![
        "cdimage"@,
        "back"@,
        "disc"@,
        "封面"@,
        "封套"@,
        "试音极品"@,
        "试音"@,
    ]);
    assert(cover_directories().take(5) =~= seq![
        "Artwork"@,
        "Scans"@,
        "Covers"@,
        "Pictures"@,
        "封面"@,
    ]);
    assert(cover_directories().skip(5) =~= seq![
        "artwork"@,
        "scans"@,
        "covers"@,
        "pictures"@,
        "scan"@,
        "pic"@,
    ]);
}

/// A file is a picture by its extension, in either case.
pub proof fn law_pictures_are_told_by_their_extension(
    dir: Seq<char>,
    stem: Seq<char>,
    ext: Seq<char>,
)
    requires
        stem.len() > 0,
        ext.len() > 0,
        forall|k: int| 0 <= k < stem.len() ==> #[trigger] stem[k] != '/',
        forall|k: int| 0 <= k < ext.len() ==> #[trigger] ext[k] != '/' && ext[k] != '.',
    ensures
        is_image(dir + seq!['/'] + (stem + seq!['.'] + ext)) <==> {
            let low = ascii_lower_all(ext);
            ||| low == "jpg"@
            ||| low == "jpeg"@
            ||| low == "png"@
            ||| low == "webp"@
            ||| low == "bmp"@
        },
{
    law_a_file_has_its_extension(dir, stem, ext);
    let low = ascii_lower_all(ext);
    let list = cover_extensions();
    assert(list[0] == "jpg"@ && list[1] == "jpeg"@ && list[2] == "png"@ && list[3] == "webp"@
        && list[4] == "bmp"@);
}

/// The files of a directory that are pictures keep their order; no other file is
/// among them.
pub proof fn law_only_pictures_are_looked_at(files: Seq<Seq<char>>, more: Seq<char>)
    ensures
        is_image(more) ==> images_of(files.push(more)) == images_of(files).push(more),
        !is_image(more) ==> images_of(files.push(more)) == images_of(files),
        images_of(Seq::empty()).len() == 0,
{
    reveal(Seq::filter);
    assert(files.push(more).drop_last() =~= files);
}

/// Whether the picture at `k` is the first with that name, in either case.
pub open spec fn is_first_named(images: Seq<Seq<char>>, name: Seq<char>, k: int) -> bool {
    &&& 0 <= k < images.len()
    &&& has_name(images[k], name)
    &&& forall|j: int| 0 <= j < k ==> !has_name(#[trigger] images[j], name)
}

/// Whether no picture has that name.
pub open spec fn none_named(images: Seq<Seq<char>>, name: Seq<char>) -> bool {
    forall|j: int| 0 <= j < images.len() ==> !has_name(#[trigger] images[j], name)
}

proof fn lemma_first_named(images: Seq<Seq<char>>, name: Seq<char>, from: int, k: int)
    requires
        0 <= from <= images.len(),
    ensures
        from <= k && is_first_named(images, name, k) ==> first_named(images, name, from) == k,
        none_named(images, name) ==> first_named(images, name, from) == images.len(),
    decreases images.len() - from,
{
    if from < images.len() {
        lemma_first_named(images, name, from + 1, k);
    }
}

/// Of pictures with one name and different extensions the first extension of the
/// list is taken; without any of them there is none.
pub proof fn law_extensions_have_an_order(
    images: Seq<Seq<char>>,
    base: Seq<char>,
    ext: int,
    k: int,
)
    requires
        0 <= ext < 5,
        forall|e: int|
            0 <= e < ext ==> none_named(images, base + seq!['.'] + #[trigger] cover_extensions()[e]),
    ensures
        is_first_named(images, base + seq!['.'] + cover_extensions()[ext], k) ==> by_extension(
            images,
            base,
            0,
        ) == Some(images[k]),
        (forall|e: int|
            0 <= e < 5 ==> none_named(images, base + seq!['.'] + #[trigger] cover_extensions()[e]))
            ==> by_extension(images, base, 0) is None,
{
    lemma_by_extension(images, base, 0, ext, k);
}

proof fn lemma_by_extension(images: Seq<Seq<char>>, base: Seq<char>, from: int, ext: int, k: int)
    requires
        0 <= ext < 5,
        0 <= from <= 5,
        forall|e: int|
            0 <= e < ext ==> none_named(images, base + seq!['.'] + #[trigger] cover_extensions()[e]),
    ensures
        from <= ext && is_first_named(images, base + seq!['.'] + cover_extensions()[ext], k)
            ==> by_extension(images, base, from) == Some(images[k]),
        (forall|e: int|
            0 <= e < 5 ==> none_named(images, base + seq!['.'] + #[trigger] cover_extensions()[e]))
            ==> by_extension(images, base, from) is None,
    decreases 5 - from,
{
    if from < 5 {
        let name = base + seq!['.'] + cover_extensions()[from];
        assert(dotted(base, cover_extensions()[from]) == name);
        lemma_first_named(images, name, 0, k);
        lemma_by_extension(images, base, from + 1, ext, k);
    }
}

/// Of pictures with names of covers the first name of the list is taken.
pub proof fn law_cover_names_have_an_order(images: Seq<Seq<char>>, n: int)
    requires
        0 <= n < 14,
        forall|j: int|
            0 <= j < n ==> by_extension(images, #[trigger] cover_names()[j], 0) is None,
    ensures
        by_extension(images, cover_names()[n], 0) is Some ==> by_cover_name(images, 0)
            == by_extension(images, cover_names()[n], 0),
        (forall|j: int| 0 <= j < 14 ==> by_extension(images, #[trigger] cover_names()[j], 0) is None)
            ==> by_cover_name(images, 0) is None,
{
    lemma_by_cover_name(images, 0, n);
}

proof fn lemma_by_cover_name(images: Seq<Seq<char>>, from: int, n: int)
    requires
        0 <= n < 14,
        0 <= from <= 14,
        forall|j: int|
            0 <= j < n ==> by_extension(images, #[trigger] cover_names()[j], 0) is None,
    ensures
        from <= n && by_extension(images, cover_names()[n], 0) is Some ==> by_cover_name(
            images,
            from,
        ) == by_extension(images, cover_names()[n], 0),
        (forall|j: int| 0 <= j < 14 ==> by_extension(images, #[trigger] cover_names()[j], 0) is None)
            ==> by_cover_name(images, from) is None,
    decreases 14 - from,
{
    if from < 14 {
        lemma_by_cover_name(images, from + 1, n);
    }
}

/// Of the other pictures the first counts whose name holds that of a cover.
pub proof fn law_a_name_hints_at_a_cover(images: Seq<Seq<char>>, k: int, is_subdir: bool)
    requires
        0 <= k < images.len(),
        by_cover_name(images, 0) is None,
        hints_at_cover(images[k]),
        forall|j: int| 0 <= j < k ==> !hints_at_cover(#[trigger] images[j]),
    ensures
        cover_in(images, is_subdir) == Some(images[k]),
{
    lemma_first_hint(images, 0, k);
}

proof fn lemma_first_hint(images: Seq<Seq<char>>, from: int, k: int)
    requires
        0 <= from <= k < images.len(),
        hints_at_cover(images[k]),
        forall|j: int| 0 <= j < k ==> !hints_at_cover(#[trigger] images[j]),
    ensures
        first_hint(images, from) == k,
    decreases k - from,
{
    if from < k {
        assert(!hints_at_cover(images[from]));
        lemma_first_hint(images, from + 1, k);
    }
}

/// A file hints at a cover where the name of one stands in its own, in either case,
/// whatever is around it.
pub proof fn law_hints_stand_in_the_name(
    dir: Seq<char>,
    before: Seq<char>,
    name: Seq<char>,
    after: Seq<char>,
    ext: Seq<char>,
    n: int,
)
    requires
        0 <= n < 14,
        ascii_lower_all(name) == cover_names()[n],
        (before + name + after).len() > 0,
        ext.len() > 0,
        forall|k: int|
            0 <= k < (before + name + after).len() ==> #[trigger] (before + name + after)[k] != '/',
        forall|k: int| 0 <= k < ext.len() ==> #[trigger] ext[k] != '/' && ext[k] != '.',
    ensures
        hints_at_cover(dir + seq!['/'] + ((before + name + after) + seq!['.'] + ext)),
{
    let stem = before + name + after;
    law_a_file_has_its_extension(dir, stem, ext);
    assert(ascii_lower_all(stem) =~= ascii_lower_all(before) + ascii_lower_all(name)
        + ascii_lower_all(after));
    law_a_text_is_found_where_it_stands(
        ascii_lower_all(before),
        cover_names()[n],
        ascii_lower_all(after),
    );
    assert(super::folder_cover::holds_name(ascii_lower_all(stem), n));
}

/// A file that hints at a cover has a name of the list within its own.
pub proof fn law_only_these_names_hint_at_a_cover(path: Seq<char>)
    requires
        hints_at_cover(path),
    ensures
        exists|n: int|
            0 <= n < 14 && crate::text::contains_text(
                ascii_lower_all(crate::path::file_stem(path)->0),
                #[trigger] cover_names()[n],
            ),
{
    let low = ascii_lower_all(crate::path::file_stem(path)->0);
    let n = choose|n: int|
        0 <= n < super::folder_cover::COVER_NAME_COUNT && #[trigger] super::folder_cover::holds_name(
            low,
            n,
        );
    assert(crate::text::contains_text(low, cover_names()[n]));
}

/// The picture that goes by the name of the sound file, in the same directory, is its
/// own.
pub proof fn law_a_namesake_has_the_stem_of_the_file(
    dir: Seq<char>,
    stem: Seq<char>,
    ext: Seq<char>,
    files: Seq<Seq<char>>,
)
    requires
        stem.len() > 0,
        ext.len() > 0,
        forall|k: int| 0 <= k < stem.len() ==> #[trigger] stem[k] != '/',
        forall|k: int| 0 <= k < ext.len() ==> #[trigger] ext[k] != '/' && ext[k] != '.',
    ensures
        ({
            let audio = dir + seq!['/'] + (stem + seq!['.'] + ext);
            &&& namesake(audio, Some(files)) == by_extension(images_of(files), stem, 0)
            &&& namesake(audio, None) is None
        }),
{
    law_a_file_has_its_extension(dir, stem, ext);
}

/// A single picture is the cover, whatever its name; where there is none there is no
/// cover.
pub proof fn law_a_single_picture_is_the_cover(image: Seq<char>, is_subdir: bool)
    ensures
        cover_in(seq![image], is_subdir) == Some(image),
        cover_in(Seq::empty(), is_subdir) is None,
{
    let images = seq![image];
    reveal_with_fuel(first_hint, 2);
    super::folder_cover::lemma_by_cover_name_in(images, 0);
    if let Some(p) = by_cover_name(images, 0) {
        let i = choose|i: int| 0 <= i < images.len() && images[i] == p;
        assert(images[i] == image);
    }
}

/// The directories of scans are looked through in turn.
pub proof fn law_scans_are_looked_through_in_turn(dirs: Seq<Seq<Seq<char>>>, k: int)
    requires
        0 <= k < dirs.len(),
        forall|j: int| 0 <= j < k ==> cover_in(images_of(#[trigger] dirs[j]), true) is None,
    ensures
        cover_in(images_of(dirs[k]), true) is Some ==> cover_in_any(dirs, 0) == cover_in(
            images_of(dirs[k]),
            true,
        ),
{
    lemma_cover_in_any(dirs, 0, k);
}

proof fn lemma_cover_in_any(dirs: Seq<Seq<Seq<char>>>, from: int, k: int)
    requires
        0 <= from <= k < dirs.len(),
        forall|j: int| 0 <= j < k ==> cover_in(images_of(#[trigger] dirs[j]), true) is None,
    ensures
        cover_in(images_of(dirs[k]), true) is Some ==> cover_in_any(dirs, from) == cover_in(
            images_of(dirs[k]),
            true,
        ),
    decreases k - from,
{
    if from < k {
        assert(cover_in(images_of(dirs[from]), true) is None);
        lemma_cover_in_any(dirs, from + 1, k);
    }
}

/// A picture with a cover's name in the file's own directory goes before all others;
/// the directory above is looked at last, and only where its name tells of one album.
pub proof fn law_covers_are_looked_for_in_order(
    audio: Seq<char>,
    dir: Seq<char>,
    here: Seq<Seq<char>>,
    scans: Seq<Seq<Seq<char>>>,
    above: Seq<Seq<char>>,
)
    ensures
        by_cover_name(images_of(here), 0) is Some ==> cover_of(
            audio,
            dir,
            Some(here),
            scans,
            Some(above),
        ) == by_cover_name(images_of(here), 0),
        images_of(here).len() == 0 && cover_in_any(scans, 0) is None ==> cover_of(
            audio,
            dir,
            Some(here),
            scans,
            Some(above),
        ) == if parent_counts(dir) {
            cover_in(images_of(above), false)
        } else {
            None
        },
        cover_in_any(scans, 0) is None && !parent_counts(dir) ==> cover_of(
            audio,
            dir,
            None,
            scans,
            Some(above),
        ) is None,
{
    if images_of(here).len() == 0 {
        lemma_no_images(images_of(here), 0);
        if let Some(stem) = crate::path::file_stem(audio) {
            lemma_by_extension(images_of(here), stem, 0, 0, 0);
            assert(by_extension(images_of(here), stem, 0) is None);
        }
    }
}

proof fn lemma_no_images(images: Seq<Seq<char>>, from: int)
    requires
        images.len() == 0,
        0 <= from <= 14,
    ensures
        by_cover_name(images, from) is None,
    decreases 14 - from,
{
    if from < 14 {
        lemma_by_extension(images, cover_names()[from], 0, 0, 0);
        lemma_no_images(images, from + 1);
    }
}

/// Of the pictures beside the file one is taken that no name tells of, where it is the
/// only one; of those above, too. Of several such pictures none is taken.
pub proof fn law_other_pictures_count_where_they_are_alone(
    audio: Seq<char>,
    dir: Seq<char>,
    here: Seq<Seq<char>>,
    scans: Seq<Seq<Seq<char>>>,
    above: Seq<Seq<char>>,
)
    requires
        by_cover_name(images_of(here), 0) is None,
        cover_in_any(scans, 0) is None,
        namesake(audio, Some(here)) is None,
    ensures
        images_of(here).len() == 1 ==> cover_of(audio, dir, Some(here), scans, Some(above)) == Some(
            images_of(here)[0],
        ),
        images_of(here).len() > 1 && !parent_counts(dir) && (forall|i: int|
            0 <= i < images_of(here).len() ==> !hints_at_cover(#[trigger] images_of(here)[i]))
            ==> cover_of(audio, dir, Some(here), scans, Some(above)) is None,
{
    let images = images_of(here);
    if images.len() == 1 {
        assert(images =~= seq![images[0]]);
        law_a_single_picture_is_the_cover(images[0], false);
    }
    if images.len() > 1 && (forall|i: int|
        0 <= i < images.len() ==> !hints_at_cover(#[trigger] images[i])) {
        super::folder_cover::law_nameless_images_are_no_cover(images);
    }
}

/// The directory above counts by its name: not where it holds all the music.
pub proof fn law_the_directory_above_counts_by_its_name(
    root: Seq<char>,
    above: Seq<char>,
    name: Seq<char>,
)
    requires
        is_plain_name(above),
        is_plain_name(name),
    ensures
        parent_counts(root + seq!['/'] + above + seq!['/'] + name) <==> above != "music"@ && above
            != "media"@,
{
    reveal_strlit(".");
    reveal_strlit("..");
    assert("."@ =~= seq!['.']);
    assert(".."@ =~= seq!['.', '.']);
    let one = root + seq!['/'] + above;
    law_a_slash_sets_off_a_component(root, above);
    law_a_slash_sets_off_a_component(one, name);
    let c = components(root).push(above).push(name);
    let n = components(root).len() as int;
    assert(c[n] == above && c.len() == n + 2);
}

/// A thumbnail is named by sixteen hexadecimal digits between its prefix and its
/// ending; those of directories are told from those of tracks by their prefix.
pub proof fn law_thumbnails_are_named_by_their_hash(hash: u64, cache: Seq<char>)
    ensures
        thumb_name("cover_"@, hash) == "cover_"@ + hex_digits(hash as int, 16) + "_thumb.jpg"@,
        hex_digits(hash as int, 16).len() == 16,
        finishes_with(thumb_name("cover_"@, hash), "_thumb.jpg"@),
        crate::path::file_name(track_thumb(hash, cache)) == Some(thumb_name("cover_"@, hash)),
        crate::path::file_name(directory_thumb(hash, cache)) == Some(
            thumb_name("directory_cover_"@, hash),
        ),
        is_directory_thumb(directory_thumb(hash, cache)),
        !is_directory_thumb(track_thumb(hash, cache)),
        crate::path::file_name(cache) is None ==> !is_directory_thumb(cache),
{
    reveal_strlit("cover_");
    reveal_strlit("directory_cover_");
    reveal_strlit("_thumb.jpg");
    let digits = hex_digits(hash as int, 16);
    law_hex_digits_count_in_sixteens(hash as int, 16);
    lemma_no_slash_in_hex(hash as int, 16);
    let a = thumb_name("cover_"@, hash);
    let b = thumb_name("directory_cover_"@, hash);
    assert forall|k: int| 0 <= k < a.len() implies #[trigger] a[k] != '/' by {
        if 6 <= k < 22 {
            assert(a[k] == digits[k - 6]);
        } else if k >= 22 {
            assert(a[k] == "_thumb.jpg"@[k - 22]);
        } else {
            assert(a[k] == "cover_"@[k]);
        }
    }
    assert forall|k: int| 0 <= k < b.len() implies #[trigger] b[k] != '/' by {
        if 16 <= k < 32 {
            assert(b[k] == digits[k - 16]);
        } else if k >= 32 {
            assert(b[k] == "_thumb.jpg"@[k - 32]);
        } else {
            assert(b[k] == "directory_cover_"@[k]);
        }
    }
    law_a_file_is_named_behind_its_directory(cache, a);
    law_a_file_is_named_behind_its_directory(cache, b);
    law_a_text_is_found_where_it_stands("cover_"@ + digits, "_thumb.jpg"@, Seq::empty());
    assert(b =~= "directory_cover_"@ + (digits + "_thumb.jpg"@));
    law_a_text_is_found_where_it_stands(
        Seq::empty(),
        "directory_cover_"@,
        digits + "_thumb.jpg"@,
    );
    assert(a[0] == 'c');
    if begins_with(a, "directory_cover_"@) {
        assert(a.subrange(0, 16)[0] == a[0]);
        assert("directory_cover_"@[0] == 'd');
    }
}

proof fn lemma_no_slash_in_hex(n: int, k: int)
    requires
        0 <= n,
        0 <= k,
    ensures
        forall|i: int| 0 <= i < hex_digits(n, k).len() ==> #[trigger] hex_digits(n, k)[i] != '/',
    decreases k,
{
    if 0 < k {
        law_hex_digits_count_in_sixteens(n, k);
        lemma_no_slash_in_hex(n / 16, k - 1);
        let s = hex_digits(n, k);
        assert forall|i: int| 0 <= i < s.len() implies #[trigger] s[i] != '/' by {
            if i < s.len() - 1 {
                assert(s.drop_last()[i] == s[i]);
            }
        }
    }
}

/// A thumbnail is made where none is known and a cover is expected, and made anew
/// where its file is gone. One of a directory also follows its cover: where there is
/// none any more, where it would have another name, and where the cover is newer.
pub proof fn law_thumbnails_follow_their_cover(
    cached: Seq<char>,
    expected: Option<Seq<char>>,
    exists_now: bool,
    newer: bool,
)
    ensures
        refresh_needed(None, exists_now, expected, newer) == (expected is Some),
        is_directory_thumb(cached) && expected is None ==> refresh_needed(
            Some(cached),
            true,
            expected,
            newer,
        ),
        is_directory_thumb(cached) && newer ==> refresh_needed(Some(cached), true, expected, newer),
        is_directory_thumb(cached) ==> (expected matches Some(e) ==> (refresh_needed(
            Some(cached),
            true,
            expected,
            false,
        ) <==> !same_path(cached, e))),
        !is_directory_thumb(cached) ==> !refresh_needed(Some(cached), true, expected, newer),
        refresh_needed(Some(cached), false, expected, newer),
{
}

/// A JPEG file begins with the marker of its start and the next marker, and ends with
/// that of its end.
pub proof fn law_jpeg_files_are_framed(middle: Seq<u8>)
    requires
        middle.len() >= 1,
        middle[0] == 255,
    ensures
        is_jpeg(seq![255u8, 216u8] + middle + seq![255u8, 217u8]),
        !is_jpeg(seq![255u8, 216u8] + middle + seq![255u8, 216u8]),
        !is_jpeg(seq![255u8, 217u8] + middle + seq![255u8, 217u8]),
{
    let a = seq![255u8, 216u8] + middle + seq![255u8, 217u8];
    assert(a[2] == middle[0]);
    assert(a[a.len() - 1] == 217 && a[a.len() - 2] == 255);
    let b = seq![255u8, 216u8] + middle + seq![255u8, 216u8];
    assert(b[b.len() - 1] == 216);
    let c = seq![255u8, 217u8] + middle + seq![255u8, 217u8];
    assert(c[1] == 217);
}

/// A picture that is made smaller keeps its proportions: its longer side becomes the
/// limit, the other what is in proportion, rounded down, and never nothing.
pub proof fn law_smaller_pictures_keep_their_proportions(side: u32, longest: u32, size: u32)
    requires
        0 < longest,
        side <= longest,
    ensures
        side_limit(size) >= 1,
        size > 0 ==> side_limit(size) == size,
        kept_side(longest, longest as int, side_limit(size)) == side_limit(size),
        ({
            let kept = kept_side(side, longest as int, side_limit(size));
            &&& kept >= 1
            &&& kept > 1 ==> kept * longest <= side * side_limit(size) < (kept + 1) * longest
            &&& kept == 1 ==> side * side_limit(size) < 2 * longest
        }),
{
    let limit = side_limit(size);
    let l = longest as int;
    vstd::arithmetic::div_mod::lemma_div_multiples_vanish(limit, l);
    assert(longest * limit == l * limit);
    let q = side * limit / l;
    vstd::arithmetic::div_mod::lemma_fundamental_div_mod(side * limit, l);
    assert(q * l <= side * limit < (q + 1) * l) by (nonlinear_arith)
        requires
            side * limit == l * q + (side * limit) % l,
            0 <= (side * limit) % l < l,
    ;
    if q <= 1 {
        assert((q + 1) * l <= 2 * l) by (nonlinear_arith)
            requires
                q <= 1,
                0 < l,
        ;
    }
}

/// The frame of a JPEG file tells its height before its width, highest byte first;
/// both lie between one and the limit.
pub proof fn law_jpeg_files_tell_their_sides(b: Seq<u8>, limit: int)
    requires
        is_jpeg_within(b, limit),
    ensures
        is_jpeg(b),
        1 <= 256 * b[25] + b[26] <= limit,
        1 <= 256 * b[27] + b[28] <= limit,
{
}

/// The pixels that go into one of a smaller picture are those of its share of the
/// side, with room to spare for rounding, and never more than the side has.
pub proof fn law_a_block_covers_its_share(side: u32, longest: int, limit: int)
    requires
        0 < longest,
        0 < limit,
    ensures
        ({
            let kept = kept_side(side, longest, limit);
            let block = block_side(side, longest, limit);
            &&& block <= side
            &&& block < side ==> (block - 3 - side as int / 2_097_152) * kept <= side < (block - 2
                - side as int / 2_097_152) * kept
        }),
{
    let kept = kept_side(side, longest, limit);
    let q = side as int / kept;
    vstd::arithmetic::div_mod::lemma_fundamental_div_mod(side as int, kept);
    assert(q * kept <= side < (q + 1) * kept) by (nonlinear_arith)
        requires
            side as int == kept * q + (side as int) % kept,
            0 <= (side as int) % kept < kept,
    ;
}

/// Sums over a block of samples fit 32 bits: with 8 bits each, 16 bits each, or as
/// fractions up to one.
pub proof fn law_sums_of_a_block_fit(
    width: u32,
    height: u32,
    pixel_bytes: u8,
    channels: u8,
    size: u32,
)
    requires
        shrinks(width, height, pixel_bytes, channels, size),
        width > 0,
        height > 0,
    ensures
        ({
            let longest: int = if width >= height {
                width as int
            } else {
                height as int
            };
            let block = block_side(width, longest, side_limit(size)) * block_side(
                height,
                longest,
                side_limit(size),
            );
            &&& pixel_bytes == channels ==> block * 256 <= 4_294_967_295
            &&& pixel_bytes != channels && pixel_bytes == 2 * channels ==> block * 65_536
                <= 4_294_967_295
            &&& pixel_bytes != channels && pixel_bytes != 2 * channels ==> block * 2
                <= 4_294_967_295
        }),
        fits_in_memory(size) <==> 16 * (size * size) <= isize::MAX,
{
}

} // verus!
