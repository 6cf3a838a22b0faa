//! Cover thumbnails: their names in the cache, when they are made anew, and
//! their making.

use std::hash::{Hash, Hasher};

use vstd::prelude::*;

use super::folder_cover::{cover_of, find_folder_cover, listed, scans_of, FolderListing};
use crate::cue::parser::string_of;
use crate::number::{hex_digits, push_hex};
use crate::path::{file_name, join, path_file_name, path_join, paths_same, same_path};
use crate::text::{append_literal, begins_with, starts_with, to_chars, to_text};

verus! {

/// Longest side of a thumbnail, in pixels.
pub const THUMB_SIZE: u32 = 300;

// ---------------------------------------------------------------------------
// Names in the cache
// ---------------------------------------------------------------------------

/// The name of a thumbnail: a prefix, sixteen hexadecimal digits and an ending.
pub open spec fn thumb_name(prefix: Seq<char>, hash: u64) -> Seq<char> {
    prefix + hex_digits(hash as int, 16) + "_thumb.jpg"@
}

/// Where the thumbnail of an audio file lies, by the hash of its path.
pub open spec fn track_thumb(hash: u64, cache_dir: Seq<char>) -> Seq<char> {
    join(cache_dir, thumb_name("cover_"@, hash))
}

/// Where the thumbnail of an image lies, by the hash of its path.
pub open spec fn directory_thumb(hash: u64, cache_dir: Seq<char>) -> Seq<char> {
    join(cache_dir, thumb_name("directory_cover_"@, hash))
}

fn thumb_path(prefix: &str, hash: u64, cache_dir: &str) -> (r: String)
    ensures
        r@ == join(cache_dir@, thumb_name(prefix@, hash)),
{
    let mut name: Vec<char> = to_chars(prefix);
    push_hex(&mut name, hash, 16);
    append_literal(&mut name, "_thumb.jpg");
    assert(name@ =~= thumb_name(prefix@, hash));
    let dir: Vec<char> = to_chars(cache_dir);
    let path: Vec<char> = path_join(dir.as_slice(), name.as_slice());
    to_text(path.as_slice())
}

/// Where the thumbnail of an audio file lies, by the hash of its path.
pub fn cover_thumb_path_for(hash: u64, cache_dir: &str) -> (r: String)
    ensures
        r@ == track_thumb(hash, cache_dir@),
{
    thumb_path("cover_", hash, cache_dir)
}

/// Where the thumbnail of an image lies, by the hash of its path.
pub fn directory_cover_thumb_path_for(hash: u64, cache_dir: &str) -> (r: String)
    ensures
        r@ == directory_thumb(hash, cache_dir@),
{
    thumb_path("directory_cover_", hash, cache_dir)
}

/// Name for the number that `DefaultHasher` makes of a text.
pub uninterp spec fn text_hash(text: Seq<char>) -> u64;

/// Hashes a text with a new `std::collections::hash_map::DefaultHasher`, as `str`
/// hashes itself. All hashers that `DefaultHasher::new` makes are the same, so
/// that the number depends on the text alone; which number it is, the standard
/// library leaves open.
#[verifier::external_body]
fn hash_text(text: &str) -> (r: u64)
    ensures
        r == text_hash(text@),
{
    let mut hasher = std::collections::hash_map::DefaultHasher::new();
    text.hash(&mut hasher);
    hasher.finish()
}

/// Hashes a path with a new `std::collections::hash_map::DefaultHasher`, as
/// `std::path::Path` hashes itself. What a path feeds to a hasher differs between
/// systems, so that the number rests on the machine; nothing is claimed of it.
#[verifier::external_body]
fn hash_path(path: &str) -> (r: u64) {
    let mut hasher = std::collections::hash_map::DefaultHasher::new();
    std::path::Path::new(path).hash(&mut hasher);
    hasher.finish()
}

/// Where the thumbnail of an audio file lies: in the cache, under a name made of
/// a hash of its path.
pub fn cover_thumb_path(source: &str, cache_dir: &str) -> (r: String)
    ensures
        r@ == track_thumb(text_hash(source@), cache_dir@),
{
    let hash: u64 = hash_text(source);
    cover_thumb_path_for(hash, cache_dir)
}

/// Where the thumbnail of an image lies. The tracks of a directory share it.
pub fn directory_cover_thumb_path(source: &str, cache_dir: &str) -> (r: String)
    ensures
        exists|hash: u64| r@ == #[trigger] directory_thumb(hash, cache_dir@),
{
    let hash: u64 = hash_path(source);
    directory_cover_thumb_path_for(hash, cache_dir)
}

// ---------------------------------------------------------------------------
// When a thumbnail is made anew
// ---------------------------------------------------------------------------

/// Whether an image was changed after its thumbnail, by their times of change
/// where they are known.
pub fn source_is_newer(source_modified: Option<i128>, cached_modified: Option<i128>) -> (r: bool)
    ensures
        r == match (source_modified, cached_modified) {
            (None, _) => false,
            (Some(_), None) => true,
            (Some(s), Some(c)) => s > c,
        },
{
    match source_modified {
        Some(s) => match cached_modified {
            Some(c) => s > c,
            None => true,
        },
        None => false,
    }
}

/// Whether a path is that of the thumbnail of an image beside a track.
pub open spec fn is_directory_thumb(path: Seq<char>) -> bool {
    match file_name(path) {
        Some(name) => begins_with(name, "directory_cover_"@),
        None => false,
    }
}

/// Whether a track is to be looked at anew for the sake of its cover. `expected`
/// is where the thumbnail of the image beside it lies, where there is one.
pub open spec fn refresh_needed(
    cached: Option<Seq<char>>,
    cached_exists: bool,
    expected: Option<Seq<char>>,
    source_newer: bool,
) -> bool {
    match cached {
        None => expected is Some,
        Some(path) => if !cached_exists {
            true
        } else if !is_directory_thumb(path) {
            false
        } else {
            match expected {
                None => true,
                Some(e) => !same_path(path, e) || source_newer,
            }
        },
    }
}

/// Settles whether a track is to be looked at anew for the sake of its cover.
pub fn refresh_is_needed(
    cached_cover: Option<&str>,
    cached_exists: bool,
    expected: Option<&str>,
    source_newer: bool,
) -> (r: bool)
    ensures
        r == refresh_needed(
            match cached_cover {
                Some(s) => Some(s@),
                None => None,
            },
            cached_exists,
            match expected {
                Some(s) => Some(s@),
                None => None,
            },
            source_newer,
        ),
{
    let cached: Vec<char> = match cached_cover {
        Some(s) => to_chars(s),
        None => {
            return expected.is_some();
        },
    };
    if !cached_exists {
        return true;
    }
    let shared: bool = match path_file_name(cached.as_slice()) {
        Some(name) => starts_with(name.as_slice(), "directory_cover_"),
        None => false,
    };
    if !shared {
        return false;
    }
    match expected {
        Some(e) => {
            let e: Vec<char> = to_chars(e);
            !paths_same(cached.as_slice(), e.as_slice()) || source_newer
        },
        None => true,
    }
}

/// Settles whether a track that has not changed is to be looked at anew for the
/// sake of its cover.
pub fn cover_cache_needs_refresh(
    cached_cover: Option<&str>,
    cached_exists: bool,
    cache_dir: &str,
    directory_cover: Option<&str>,
    source_newer: bool,
) -> (r: bool)
    ensures
        ({
            let cached = match cached_cover {
                Some(s) => Some(s@),
                None => None,
            };
            match directory_cover {
                None => r == refresh_needed(cached, cached_exists, None, source_newer),
                Some(_) => exists|hash: u64|
                    r == refresh_needed(
                        cached,
                        cached_exists,
                        Some(#[trigger] directory_thumb(hash, cache_dir@)),
                        source_newer,
                    ),
            }
        }),
{
    match directory_cover {
        Some(cover) => {
            let expected: String = directory_cover_thumb_path(cover, cache_dir);
            refresh_is_needed(cached_cover, cached_exists, Some(expected.as_str()), source_newer)
        },
        None => refresh_is_needed(cached_cover, cached_exists, None, source_newer),
    }
}

// ---------------------------------------------------------------------------
// What is done for a cover
// ---------------------------------------------------------------------------

/// Finds the image beside an audio file that is its cover.
pub fn find_directory_cover(source: &str, dir: &str, listing: &FolderListing) -> (r: Option<String>)
    ensures
        string_of(r) == cover_of(
            source@,
            dir@,
            listed(listing.here),
            scans_of(listing.scans@),
            listed(listing.above),
        ),
{
    find_folder_cover(source, dir, listing)
}

/// What is done to get the thumbnail of an image.
#[derive(Debug, Clone, Copy, PartialEq, Eq, Structural)]
pub enum ThumbnailStep {
    /// The one in the cache is good.
    Reuse,
    /// It is made from the image.
    Generate,
}

/// Settles whether the thumbnail of an image is made anew.
pub fn extract_directory_cover_thumbnail(thumb_exists: bool, source_newer: bool) -> (r:
    ThumbnailStep)
    ensures
        r == if thumb_exists && !source_newer {
            ThumbnailStep::Reuse
        } else {
            ThumbnailStep::Generate
        },
{
    if thumb_exists && !source_newer {
        ThumbnailStep::Reuse
    } else {
        ThumbnailStep::Generate
    }
}

/// Where the cover of a track comes from.
#[derive(Debug, Clone, Copy, PartialEq, Eq, Structural)]
pub enum CoverOrigin {
    /// Its thumbnail is in the cache.
    Cache,
    /// It is in the file of the track.
    Embedded,
    /// It is an image beside the track.
    Directory,
    Nowhere,
}

/// Settles where the cover of a track comes from: what is cached comes first,
/// then what is in the file, then what lies beside it.
pub fn extract_cover_thumbnail_with_directory_cover(
    thumb_exists: bool,
    has_embedded_cover: bool,
    has_directory_cover: bool,
) -> (r: CoverOrigin)
    ensures
        r == if thumb_exists {
            CoverOrigin::Cache
        } else if has_embedded_cover {
            CoverOrigin::Embedded
        } else if has_directory_cover {
            CoverOrigin::Directory
        } else {
            CoverOrigin::Nowhere
        },
{
    if thumb_exists {
        CoverOrigin::Cache
    } else if has_embedded_cover {
        CoverOrigin::Embedded
    } else if has_directory_cover {
        CoverOrigin::Directory
    } else {
        CoverOrigin::Nowhere
    }
}

/// The image beside an audio file that is its cover, and where the image's
/// thumbnail lies.
pub fn extract_folder_cover_thumbnail(
    source: &str,
    dir: &str,
    listing: &FolderListing,
    cache_dir: &str,
) -> (r: Option<(String, String)>)
    ensures
        ({
            let cover = cover_of(
                source@,
                dir@,
                listed(listing.here),
                scans_of(listing.scans@),
                listed(listing.above),
            );
            match r {
                Some((image, thumb)) => cover == Some(image@) && exists|hash: u64|
                    thumb@ == #[trigger] directory_thumb(hash, cache_dir@),
                None => cover is None,
            }
        }),
{
    match find_directory_cover(source, dir, listing) {
        Some(image) => {
            let thumb: String = directory_cover_thumb_path(image.as_str(), cache_dir);
            Some((image, thumb))
        },
        None => None,
    }
}

// ---------------------------------------------------------------------------
// Making thumbnails
// ---------------------------------------------------------------------------

/// An image in memory.
#[verifier::external_type_specification]
#[verifier::external_body]
pub struct ExDynamicImage(image::DynamicImage);

/// Why an image could not be read or written.
#[verifier::external_type_specification]
#[verifier::external_body]
pub struct ExImageError(image::ImageError);

/// Why there is no thumbnail.
#[derive(Debug, Clone, Copy, PartialEq, Eq, Structural)]
pub enum ThumbnailError {
    /// The data is no image that can be read.
    Unreadable,
    /// So many pixels would come together in one that their sum is out of bounds.
    TooCoarse,
    /// The thumbnail could not be written as JPEG.
    Unwritable,
}

/// Whether bytes are framed as a JPEG file: the start mark and another mark at
/// the front, the end mark at the back.
pub open spec fn is_jpeg(b: Seq<u8>) -> bool {
    &&& b.len() >= 4
    &&& b[0] == 0xff && b[1] == 0xd8 && b[2] == 0xff
    &&& b[b.len() - 2] == 0xff && b[b.len() - 1] == 0xd9
}

/// Whether a square of so many pixels fits in memory, at up to sixteen bytes
/// each.
pub open spec fn fits_in_memory(size: u32) -> bool {
    16 * (size * size) <= isize::MAX
}

/// An image that was loaded, with what it tells of itself: its size in pixels, and
/// of a pixel the bytes and the channels.
pub struct LoadedImage {
    image: image::DynamicImage,
    width: u32,
    height: u32,
    pixel_bytes: u8,
    channels: u8,
}

impl LoadedImage {
    /// Whether the sums of shrinking the image into a square stay in bounds.
    pub closed spec fn sums_fit(&self, size: u32) -> bool {
        shrinks(self.width, self.height, self.pixel_bytes, self.channels, size)
    }
}

/// Calls `image::load_from_memory`, and asks the image for its width, its height,
/// and its color type for the bytes and the channels of a pixel. Which decoder
/// reads the data depends on those that the process has registered, and the one
/// for JPEG chooses its arithmetic by the processor; so nothing is claimed of
/// whether an image comes out, and of which.
#[verifier::external_body]
fn load_image(data: &[u8]) -> (r: Result<LoadedImage, image::ImageError>) {
    let image = image::load_from_memory(data)?;
    let color = image.color();
    Ok(
        LoadedImage {
            width: image.width(),
            height: image.height(),
            pixel_bytes: color.bytes_per_pixel(),
            channels: color.channel_count(),
            image,
        },
    )
}

/// The largest value of a sample, where samples are summed up as whole numbers:
/// those of one byte and of two. Others are fractions; of them only the count has
/// to stay in bounds.
pub open spec fn largest_sample(pixel_bytes: u8, channels: u8) -> int {
    if pixel_bytes == channels {
        0xff
    } else if pixel_bytes == 2 * channels {
        0xffff
    } else {
        1
    }
}

/// The longer of two sides.
pub open spec fn longer(width: u32, height: u32) -> int {
    if width < height {
        height as int
    } else {
        width as int
    }
}

/// Pixels that a side keeps at least where the longest side of the image is shrunk
/// to `limit`.
pub open spec fn kept_side(side: u32, longest: int, limit: int) -> int {
    let kept = side * limit / longest;
    if kept < 1 {
        1
    } else {
        kept
    }
}

/// Pixels of a side that come together in one at most. Places are computed with 24
/// significant bits, so on a side of millions of pixels they are off by some.
pub open spec fn block_side(side: u32, longest: int, limit: int) -> int {
    let pixels = side as int / kept_side(side, longest, limit) + side as int / 0x20_0000 + 3;
    if pixels < side {
        pixels
    } else {
        side as int
    }
}

/// Whether the sums of shrinking an image into a square stay in bounds: those over
/// the pixels that come together in one, with half their number for rounding,
/// have 32 bits.
pub open spec fn shrinks(
    width: u32,
    height: u32,
    pixel_bytes: u8,
    channels: u8,
    size: u32,
) -> bool {
    let longest = longer(width, height);
    let limit = side_limit(size);
    longest == 0 || block_side(width, longest, limit) * block_side(height, longest, limit) * (
    largest_sample(pixel_bytes, channels) + 1) <= u32::MAX
}

fn side_of_block(side: u32, longest: u32, limit: u32) -> (r: u32)
    requires
        0 < longest,
        0 < limit,
    ensures
        r == block_side(side, longest as int, limit as int),
{
    proof {
        assert(side * limit <= 0xffff_ffff * 0xffff_ffff) by (nonlinear_arith)
            requires
                side <= 0xffff_ffff,
                limit <= 0xffff_ffff,
        ;
        assert(0 <= side * limit) by (nonlinear_arith)
            requires
                0 <= side,
                0 <= limit,
        ;
    }
    let wide: u64 = side as u64 * limit as u64 / longest as u64;
    let kept: u64 = if wide < 1 {
        1
    } else {
        wide
    };
    assert(side as int / kept as int <= side) by (nonlinear_arith)
        requires
            1 <= kept,
            0 <= side,
    ;
    let pixels: u64 = side as u64 / kept + side as u64 / 0x20_0000 + 3;
    if pixels < side as u64 {
        pixels as u32
    } else {
        side
    }
}

/// Whether an image of so many pixels can be shrunk into a square of a certain
/// side.
pub fn can_shrink(width: u32, height: u32, pixel_bytes: u8, channels: u8, size: u32) -> (r: bool)
    ensures
        r == shrinks(width, height, pixel_bytes, channels, size),
{
    let longest: u32 = if width < height {
        height
    } else {
        width
    };
    if longest == 0 {
        return true;
    }
    let limit: u32 = if size == 0 {
        1
    } else {
        size
    };
    let largest: u128 = if pixel_bytes == channels {
        0xff
    } else if pixel_bytes as u16 == 2 * channels as u16 {
        0xffff
    } else {
        1
    };
    let wide: u32 = side_of_block(width, longest, limit);
    let high: u32 = side_of_block(height, longest, limit);
    proof {
        let w = wide as int;
        let h = high as int;
        let l = largest as int;
        assert(0 <= w * h <= 0xffff_ffff * 0xffff_ffff) by (nonlinear_arith)
            requires
                0 <= w <= 0xffff_ffff,
                0 <= h <= 0xffff_ffff,
        ;
        let n = w * h;
        assert(0 <= n * (l + 1) <= 0xffff_ffff * 0xffff_ffff * 0x1_0000) by (nonlinear_arith)
            requires
                0 <= n <= 0xffff_ffff * 0xffff_ffff,
                0 <= l <= 0xffff,
        ;
    }
    wide as u128 * high as u128 * (largest + 1) <= u32::MAX as u128
}

/// An image that was shrunk, with its size in pixels.
pub struct ShrunkImage {
    image: image::DynamicImage,
    width: u32,
    height: u32,
}

impl ShrunkImage {
    /// Its width in pixels.
    pub closed spec fn wide(&self) -> int {
        self.width as int
    }

    /// Its height in pixels.
    pub closed spec fn high(&self) -> int {
        self.height as int
    }
}

/// The longest side of an image that is shrunk to a square: an image never
/// vanishes.
pub open spec fn side_limit(size: u32) -> int {
    if size == 0 {
        1
    } else {
        size as int
    }
}

/// Height in pixels that the frame header of a JPEG file tells, directly behind
/// the start mark and a first segment of eighteen bytes.
pub open spec fn jpeg_height(b: Seq<u8>) -> int {
    b[25] * 256 + b[26]
}

/// Width in pixels that the same header tells.
pub open spec fn jpeg_width(b: Seq<u8>) -> int {
    b[27] * 256 + b[28]
}

/// Whether bytes are framed as a JPEG file whose header tells sides of at least a
/// pixel and at most so many.
pub open spec fn is_jpeg_within(b: Seq<u8>, limit: int) -> bool {
    &&& is_jpeg(b)
    &&& b.len() >= 29
    &&& 1 <= jpeg_width(b) <= limit
    &&& 1 <= jpeg_height(b) <= limit
}

/// Calls `image::DynamicImage::thumbnail`, for a square of the given side, which
/// has to fit in memory. It adds up the pixels that come together in one in 32
/// bits, and those sums have to stay in bounds. What comes out has sides of at least one pixel and of at
/// most that many, or of one where that is none. How they divide and what the
/// pixels are is computed in floating point; nothing is claimed of that.
#[verifier::external_body]
fn shrink_image(image: &LoadedImage, size: u32) -> (r: ShrunkImage)
    requires
        fits_in_memory(size),
        image.sums_fit(size),
    ensures
        1 <= r.wide() <= side_limit(size),
        1 <= r.high() <= side_limit(size),
{
    let image = image.image.thumbnail(size, size);
    ShrunkImage { width: image.width(), height: image.height(), image }
}

/// Calls `image::DynamicImage::write_to` with `image::ImageFormat::Jpeg`. What is
/// written is framed as JPEG, and its frame header tells the size of the image.
#[verifier::external_body]
fn encode_jpeg(image: &ShrunkImage) -> (r: Result<Vec<u8>, image::ImageError>)
    ensures
        r matches Ok(bytes) ==> {
            &&& is_jpeg(bytes@)
            &&& bytes@.len() >= 29
            &&& jpeg_width(bytes@) == image.wide()
            &&& jpeg_height(bytes@) == image.high()
        },
{
    let mut bytes = Vec::new();
    image.image.write_to(&mut std::io::Cursor::new(&mut bytes), image::ImageFormat::Jpeg)?;
    Ok(bytes)
}

/// Makes a JPEG thumbnail of an image, of at most the given size on each side. An
/// image that is too large to be shrunk so far is refused.
pub fn make_thumbnail_jpeg(data: &[u8], max_size: u32) -> (r: Result<Vec<u8>, ThumbnailError>)
    requires
        fits_in_memory(max_size),
    ensures
        r matches Ok(bytes) ==> is_jpeg_within(bytes@, side_limit(max_size)),
{
    match load_image(data) {
        Ok(image) => {
            if !can_shrink(
                image.width,
                image.height,
                image.pixel_bytes,
                image.channels,
                max_size,
            ) {
                return thumbnail_outcome(true, false, None);
            }
            let thumbnail = shrink_image(&image, max_size);
            match encode_jpeg(&thumbnail) {
                Ok(bytes) => thumbnail_outcome(true, true, Some(bytes)),
                Err(_) => thumbnail_outcome(true, true, None),
            }
        },
        Err(_) => thumbnail_outcome(false, false, None),
    }
}

/// What comes of making a thumbnail, by whether the image could be read and can be
/// shrunk, and what was written.
pub fn thumbnail_outcome(readable: bool, shrinkable: bool, written: Option<Vec<u8>>) -> (r: Result<
    Vec<u8>,
    ThumbnailError,
>)
    ensures
        r == if !readable {
            Err::<Vec<u8>, ThumbnailError>(ThumbnailError::Unreadable)
        } else if !shrinkable {
            Err(ThumbnailError::TooCoarse)
        } else {
            match written {
                Some(bytes) => Ok(bytes),
                None => Err(ThumbnailError::Unwritable),
            }
        },
{
    if !readable {
        return Err(ThumbnailError::Unreadable);
    }
    if !shrinkable {
        return Err(ThumbnailError::TooCoarse);
    }
    match written {
        Some(bytes) => Ok(bytes),
        None => Err(ThumbnailError::Unwritable),
    }
}

/// Makes the thumbnail of a cover.
pub fn generate_cover_thumbnail(data: &[u8]) -> (r: Result<Vec<u8>, ThumbnailError>)
    ensures
        r matches Ok(bytes) ==> is_jpeg_within(bytes@, THUMB_SIZE as int),
{
    make_thumbnail_jpeg(data, THUMB_SIZE)
}

// ---------------------------------------------------------------------------
// Laws
// ---------------------------------------------------------------------------

/// Two thumbnails in one cache lie in the same place only where their hashes are
/// the same.
pub proof fn law_thumbnails_do_not_collide(a: u64, b: u64, prefix: Seq<char>)
    requires
        thumb_name(prefix, a) == thumb_name(prefix, b),
    ensures
        a == b,
{
    let tail = "_thumb.jpg"@;
    lemma_hex_len(a as int, 16);
    lemma_hex_len(b as int, 16);
    let x = thumb_name(prefix, a);
    let y = thumb_name(prefix, b);
    let n = prefix.len() as int;
    assert(x.subrange(n, n + 16) =~= hex_digits(a as int, 16));
    assert(y.subrange(n, n + 16) =~= hex_digits(b as int, 16));
    assert(vstd::arithmetic::power::pow(16, 16) == 0x1_0000_0000_0000_0000) by {
        reveal_with_fuel(vstd::arithmetic::power::pow, 17);
    }
    crate::number::law_hex_digits_tell_numbers_apart(a as int, b as int, 16);
}

proof fn lemma_hex_len(n: int, k: int)
    requires
        0 <= k,
    ensures
        hex_digits(n, k).len() == k,
    decreases k,
{
    if k > 0 {
        lemma_hex_len(n / 16, k - 1);
    }
}

/// A thumbnail that has vanished is always made anew; one that is not shared by
/// a directory is good as long as it is there.
pub proof fn law_missing_thumbnail_is_refreshed(
    cached: Seq<char>,
    expected: Option<Seq<char>>,
    newer: bool,
)
    ensures
        refresh_needed(Some(cached), false, expected, newer),
        !is_directory_thumb(cached) ==> !refresh_needed(Some(cached), true, expected, newer),
        !newer && is_directory_thumb(cached) ==> !refresh_needed(
            Some(cached),
            true,
            Some(cached),
            newer,
        ),
{
}

} // verus!
