//! Tags, covers and their thumbnails.

use std::collections::hash_map::DefaultHasher;
use std::collections::HashMap;
use std::hash::{Hash, Hasher};
use std::io::Cursor;

use audio_engine_core::metadata::cover::{
    cover_cache_needs_refresh, cover_thumb_path, cover_thumb_path_for, directory_cover_thumb_path,
    directory_cover_thumb_path_for, extract_cover_thumbnail_with_directory_cover,
    extract_directory_cover_thumbnail, extract_folder_cover_thumbnail, find_directory_cover,
    can_shrink, generate_cover_thumbnail, make_thumbnail_jpeg, refresh_is_needed, source_is_newer,
    thumbnail_outcome, CoverOrigin, ThumbnailError, ThumbnailStep,
};
use audio_engine_core::metadata::folder_cover::{find_folder_cover, FolderListing};
use audio_engine_core::metadata::{
    clean_and_repair_tag, clean_title_from_filename, extract_file_tags, extract_replay_gain,
    extract_stream_info, extract_tags, infer_album_from_path, infer_artist_from_path,
    repair_legacy_gbk_tags_for_path, GainUnit, NativeTags, Tags,
};

fn listing(names: &[&str]) -> FolderListing {
    FolderListing {
        here: Some(names.iter().map(|name| format!("/music/{name}")).collect()),
        scans: Vec::new(),
        above: None,
    }
}

fn cover_among(audio: &str, names: &[&str]) -> Option<String> {
    find_folder_cover(&format!("/music/{audio}"), "/music", &listing(names))
        .map(|path| path.trim_start_matches("/music/").to_string())
}

#[test]
fn common_tags_are_matched_case_insensitively() {
    let dict: Vec<(String, String)> = HashMap::from([
        ("TITLE".to_string(), "Track".to_string()),
        ("Album_Artist".to_string(), "Artist".to_string()),
        ("TRACK".to_string(), "7".to_string()),
    ])
    .into_iter()
    .collect();

    let tags = extract_tags(&dict);
    assert_eq!(tags.title.as_deref(), Some("Track"));
    assert_eq!(tags.artist.as_deref(), Some("Artist"));
    assert_eq!(tags.track, Some(7));
}

#[test]
fn malformed_legacy_gbk_tags_are_repaired_only_when_title_matches_file_name() {
    let tags = Tags {
        title: Some("ÇôÄñ".to_string()),
        artist: Some("µË×ÏÆå".to_string()),
        album: Some("ÔÚÏßÈÈËÑ£¨»ªÓï£©ÏµÁÐ63".to_string()),
        track: None,
        comment: None,
    };
    let repaired = repair_legacy_gbk_tags_for_path(tags, "/music/囚鸟.mp3");

    assert_eq!(repaired.title.as_deref(), Some("囚鸟"));
    assert_eq!(repaired.artist.as_deref(), Some("邓紫棋"));
    assert_eq!(repaired.album.as_deref(), Some("在线热搜（华语）系列63"));
}

#[test]
fn malformed_legacy_gbk_guess_does_not_override_unrelated_file_name() {
    let tags = Tags {
        title: Some("ÇôÄñ".to_string()),
        artist: Some("Beyoncé".to_string()),
        album: Some("Album".to_string()),
        track: None,
        comment: None,
    };
    let repaired = repair_legacy_gbk_tags_for_path(tags, "/music/Other Song.mp3");

    assert_eq!(repaired.title.as_deref(), Some("ÇôÄñ"));
    assert_eq!(repaired.artist.as_deref(), Some("Beyoncé"));
}

#[test]
fn r128_track_gain_has_priority_and_uses_fixed_point_units() {
    let dict: Vec<(String, String)> = HashMap::from([
        ("R128_TRACK_GAIN".to_string(), "-1536".to_string()),
        ("replaygain_track_gain".to_string(), "-3.00 dB".to_string()),
    ])
    .into_iter()
    .collect();

    let gain = extract_replay_gain(&dict).unwrap();
    assert_eq!(gain.unit, GainUnit::Decibel256ths);
    assert_eq!(gain.number.parse::<f32>().ok().map(|raw| raw / 256.0), Some(-6.0));
}

#[test]
fn gains_that_are_no_numbers_are_passed_over() {
    let pairs = |a: &str, b: &str| {
        vec![
            ("R128_ALBUM_GAIN".to_string(), a.to_string()),
            ("REPLAYGAIN_TRACK_GAIN".to_string(), b.to_string()),
        ]
    };
    let gain = extract_replay_gain(&pairs("loud", " -3.00 dB ")).unwrap();
    assert_eq!(gain.unit, GainUnit::Decibels);
    assert_eq!(gain.number, "-3.00");
    assert!(extract_replay_gain(&pairs("", "1e")).is_none());
    assert_eq!(extract_replay_gain(&pairs("+.5E-2", "0")).unwrap().number, "+.5E-2");
    assert_eq!(extract_replay_gain(&pairs("-Infinity", "0")).unwrap().number, "-Infinity");
    assert_eq!(extract_replay_gain(&pairs(".", "5.")).unwrap().number, "5.");
}

#[test]
fn test_clean_title_and_path_inference() {
    let path = "/media/music2/蔡琴/机遇（绿色版）/01._机遇Ⅰ.wav";
    assert_eq!(clean_title_from_filename(path), Some("机遇Ⅰ".to_string()));
    assert_eq!(infer_album_from_path(path), Some("机遇（绿色版）".to_string()));
    assert_eq!(infer_artist_from_path(path), Some("蔡琴".to_string()));

    let path2 = "/music/张学友/吻别/02. 每天爱你多一些.flac";
    assert_eq!(clean_title_from_filename(path2), Some("每天爱你多一些".to_string()));
    assert_eq!(infer_album_from_path(path2), Some("吻别".to_string()));
    assert_eq!(infer_artist_from_path(path2), Some("张学友".to_string()));
}

#[test]
fn test_clean_and_repair_tag_discards_fffd_and_decodes_latin1_gbk() {
    assert_eq!(clean_and_repair_tag("".to_string()), None);
    assert_eq!(clean_and_repair_tag("(2003) (ɫ)".to_string()), None);
    assert_eq!(clean_and_repair_tag("(2003) (\u{fffd})".to_string()), None);

    let raw_caiqin = "²ÌÇÙ".to_string();
    assert_eq!(clean_and_repair_tag(raw_caiqin), Some("蔡琴".to_string()));

    let raw_jiyu = "»úÓö¢ñ".to_string();
    assert_eq!(clean_and_repair_tag(raw_jiyu), Some("机遇Ⅰ".to_string()));
}

#[test]
fn ascii_tags_are_kept_as_they_are() {
    assert_eq!(clean_and_repair_tag(" Album ".to_string()), Some("Album".to_string()));
}

#[test]
fn native_tags_come_first_and_the_path_last() {
    let native = NativeTags {
        title: Some("Song".to_string()),
        artist: None,
        album: None,
        track_number: Some(3),
    };
    let container = vec![
        ("artist".to_string(), "Singer".to_string()),
        ("title".to_string(), "Other".to_string()),
        ("comment".to_string(), "note".to_string()),
    ];
    let tags = extract_file_tags("/music/Somebody/Record/01 Song.flac", Some(native), &container);
    assert_eq!(tags.title.as_deref(), Some("Song"));
    assert_eq!(tags.artist.as_deref(), Some("Singer"));
    assert_eq!(tags.album.as_deref(), Some("Record"));
    assert_eq!(tags.track, Some(3));
    assert_eq!(tags.comment.as_deref(), Some("note"));
}

#[test]
fn negative_stream_parameters_count_as_none() {
    let info = extract_stream_info(320_000, 44_100, -1, 2);
    assert_eq!(info.bit_rate, 320_000);
    assert_eq!(info.bits_per_sample, 0);
    assert_eq!(info.sample_rate, 44_100);
    assert_eq!(info.channels, 2);
}

#[test]
fn finds_cover_jpg() {
    assert_eq!(
        cover_among("song.flac", &["cover.jpg", "song.flac"]),
        Some("cover.jpg".to_string())
    );
}

#[test]
fn priority_cover_over_folder() {
    assert_eq!(
        cover_among("song.flac", &["cover.png", "folder.jpg", "song.flac"]),
        Some("cover.png".to_string())
    );
}

#[test]
fn same_name_as_audio() {
    assert_eq!(
        cover_among("track01.flac", &["track01.jpg", "other.txt", "track01.flac"]),
        Some("track01.jpg".to_string())
    );
}

#[test]
fn single_image_in_dir() {
    assert!(cover_among("track.flac", &["random_name.jpg", "track.flac"]).is_some());
}

#[test]
fn multiple_random_images_returns_none() {
    assert!(cover_among("track.flac", &["a.jpg", "b.png", "track.flac"]).is_none());
}

#[test]
fn no_images_returns_none() {
    assert!(cover_among("track.flac", &["track.flac"]).is_none());
}

#[test]
fn case_insensitive_match() {
    assert_eq!(
        cover_among("song.flac", &["Cover.JPG", "song.flac"]),
        Some("Cover.JPG".to_string())
    );
}

#[test]
fn files_without_extension_do_not_break_scan() {
    assert_eq!(
        cover_among("song.flac", &["cover.jpg", "README", "song.flac"]),
        Some("cover.jpg".to_string())
    );
}

#[test]
fn directory_cover_lookup_is_case_insensitive_and_uses_stable_priority() {
    assert_eq!(
        find_directory_cover(
            "/music/track.flac",
            "/music",
            &listing(&["Folder.JPG", "cover.png"])
        ),
        Some("/music/cover.png".to_string())
    );
}

#[test]
fn directory_cover_cache_is_shared_and_repaired_when_missing() {
    let cover = "/music/cover.png";
    let cached = directory_cover_thumb_path(cover, "/cache");
    assert_eq!(cached, directory_cover_thumb_path(cover, "/cache"));
    assert_eq!(extract_directory_cover_thumbnail(true, false), ThumbnailStep::Reuse);
    assert!(!cover_cache_needs_refresh(
        Some(&cached),
        true,
        "/cache",
        Some(cover),
        false
    ));
    assert!(cover_cache_needs_refresh(
        Some(&cached),
        false,
        "/cache",
        Some(cover),
        false
    ));
    assert_eq!(extract_directory_cover_thumbnail(false, false), ThumbnailStep::Generate);
}

#[test]
fn thumbnails_are_refreshed_only_for_a_reason() {
    assert!(source_is_newer(Some(2), Some(1)));
    assert!(!source_is_newer(Some(1), Some(1)));
    assert!(source_is_newer(Some(1), None));
    assert!(!source_is_newer(None, Some(1)));
    assert!(!refresh_is_needed(None, false, None, false));
    assert!(refresh_is_needed(None, false, Some("/c/x"), false));
    assert!(!refresh_is_needed(Some("/c/cover_1_thumb.jpg"), true, None, true));
    assert!(refresh_is_needed(Some("/c/directory_cover_1"), true, None, false));
    assert!(refresh_is_needed(
        Some("/c/directory_cover_1"),
        true,
        Some("/c/directory_cover_2"),
        false
    ));
    assert_eq!(
        cover_thumb_path_for(0xabc, "/cache"),
        "/cache/cover_0000000000000abc_thumb.jpg"
    );
    assert_eq!(
        directory_cover_thumb_path_for(1, "/cache"),
        "/cache/directory_cover_0000000000000001_thumb.jpg"
    );
    assert_ne!(cover_thumb_path("/a.flac", "/cache"), cover_thumb_path("/b.flac", "/cache"));
}

#[test]
fn thumbnails_are_named_by_the_hash_of_a_path() {
    let mut text = DefaultHasher::new();
    "/music/a.flac".hash(&mut text);
    assert_eq!(
        cover_thumb_path("/music/a.flac", "/cache"),
        cover_thumb_path_for(text.finish(), "/cache")
    );
    let mut path = DefaultHasher::new();
    std::path::Path::new("/music/cover.png").hash(&mut path);
    assert_eq!(
        directory_cover_thumb_path("/music//cover.png", "/cache"),
        directory_cover_thumb_path_for(path.finish(), "/cache")
    );
}

#[test]
fn covers_come_from_the_cache_the_file_and_the_directory() {
    assert_eq!(
        extract_cover_thumbnail_with_directory_cover(true, true, true),
        CoverOrigin::Cache
    );
    assert_eq!(
        extract_cover_thumbnail_with_directory_cover(false, true, true),
        CoverOrigin::Embedded
    );
    assert_eq!(
        extract_cover_thumbnail_with_directory_cover(false, false, true),
        CoverOrigin::Directory
    );
    assert_eq!(
        extract_cover_thumbnail_with_directory_cover(false, false, false),
        CoverOrigin::Nowhere
    );
    let (image, thumb) = extract_folder_cover_thumbnail(
        "/music/song.flac",
        "/music",
        &listing(&["cover.jpg"]),
        "/cache",
    )
    .unwrap();
    assert_eq!(image, "/music/cover.jpg");
    assert_eq!(thumb, directory_cover_thumb_path("/music/cover.jpg", "/cache"));
}

#[test]
fn invalid_cover_does_not_create_fake_jpeg() {
    assert_eq!(
        generate_cover_thumbnail(b"not an image"),
        Err(ThumbnailError::Unreadable)
    );
}

#[test]
fn png_cover_is_encoded_as_jpeg() {
    let mut png = Cursor::new(Vec::new());
    image::DynamicImage::new_rgb8(2, 2)
        .write_to(&mut png, image::ImageFormat::Png)
        .unwrap();

    let cached = generate_cover_thumbnail(png.get_ref()).unwrap();
    assert!(cached.starts_with(&[0xff, 0xd8, 0xff]));
    assert!(cached.ends_with(&[0xff, 0xd9]));
}

#[test]
fn thumbnails_are_no_larger_than_asked_for() {
    let mut png = Cursor::new(Vec::new());
    image::DynamicImage::new_rgb8(64, 32)
        .write_to(&mut png, image::ImageFormat::Png)
        .unwrap();
    let jpeg = make_thumbnail_jpeg(png.get_ref(), 16).unwrap();
    assert_eq!(jpeg[25..29], [0, 8, 0, 16]);
    let small = image::load_from_memory(&jpeg).unwrap();
    assert_eq!((small.width(), small.height()), (16, 8));
}

#[test]
fn an_image_is_never_shrunk_to_nothing() {
    let mut png = Cursor::new(Vec::new());
    image::DynamicImage::new_rgb8(64, 2)
        .write_to(&mut png, image::ImageFormat::Png)
        .unwrap();
    let jpeg = make_thumbnail_jpeg(png.get_ref(), 0).unwrap();
    assert_eq!(jpeg[25..29], [0, 1, 0, 1]);
    let jpeg = make_thumbnail_jpeg(png.get_ref(), 4).unwrap();
    assert_eq!(jpeg[25..29], [0, 1, 0, 4]);
    let jpeg = generate_cover_thumbnail(png.get_ref()).unwrap();
    let width = usize::from(jpeg[27]) * 256 + usize::from(jpeg[28]);
    assert!(width <= 300);
}

#[test]
fn an_image_is_not_shrunk_beyond_the_bounds_of_its_sums() {
    let mut png = Cursor::new(Vec::new());
    image::DynamicImage::new_luma16(300, 300)
        .write_to(&mut png, image::ImageFormat::Png)
        .unwrap();
    assert_eq!(make_thumbnail_jpeg(png.get_ref(), 1), Err(ThumbnailError::TooCoarse));
    let jpeg = generate_cover_thumbnail(png.get_ref());
    assert_ne!(jpeg, Err(ThumbnailError::TooCoarse));

    // 8 bits in three channels, 16 bits in four.
    assert!(can_shrink(12_000, 12_000, 3, 3, 300));
    assert!(can_shrink(12_000, 12_000, 8, 4, 300));
    assert!(can_shrink(4_000, 4_000, 3, 3, 1));
    assert!(!can_shrink(4_200, 4_200, 3, 3, 1));
    assert!(!can_shrink(20_000_000, 1, 2, 1, 300));
    assert!(can_shrink(20_000_000, 1, 1, 1, 300));
    assert!(can_shrink(40_000, 1_000, 6, 3, 300));
    assert!(can_shrink(0, 0, 3, 3, 300));
    assert!(can_shrink(300, 300, 12, 3, 1));
}

#[test]
fn scans_and_namesakes_come_before_other_images() {
    let mut around = listing(&["song.flac", "x.jpg"]);
    around.scans = vec![vec!["/music/Artwork/cover.jpg".to_string()]];
    let cover = |around: &FolderListing| find_folder_cover("/music/song.flac", "/music", around);
    assert_eq!(cover(&around).as_deref(), Some("/music/Artwork/cover.jpg"));
    around.scans = Vec::new();
    assert_eq!(cover(&around).as_deref(), Some("/music/x.jpg"));
    let named = listing(&["song.flac", "song.jpg", "my_cover.jpg"]);
    assert_eq!(cover(&named).as_deref(), Some("/music/song.jpg"));
    let hinted = listing(&["song.flac", "a.jpg", "my_cover.jpg"]);
    assert_eq!(cover(&hinted).as_deref(), Some("/music/my_cover.jpg"));
    let mut fixed = listing(&["song.flac", "cover.jpg"]);
    fixed.scans = vec![vec!["/music/Artwork/a.jpg".to_string()]];
    assert_eq!(cover(&fixed).as_deref(), Some("/music/cover.jpg"));
}

#[test]
fn a_thumbnail_fails_where_reading_or_writing_does() {
    assert_eq!(thumbnail_outcome(false, false, None), Err(ThumbnailError::Unreadable));
    assert_eq!(thumbnail_outcome(true, false, None), Err(ThumbnailError::TooCoarse));
    assert_eq!(thumbnail_outcome(true, true, None), Err(ThumbnailError::Unwritable));
    assert_eq!(thumbnail_outcome(true, true, Some(vec![1])), Ok(vec![1]));
}
