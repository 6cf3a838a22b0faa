//! Cue sheets, paths and numbers.

use audio_engine_core::cue::matcher::{cue_target, normalize_for_fuzzy_match, resolve_audio_path};
use audio_engine_core::cue::parser::{decode_text_auto, parse_timestamp_frames, CueSheet};
use audio_engine_core::cue::{cue_virtual_path, is_cue_path, parse_cue_virtual_path};

const SHEET: &str = "\
REM GENRE Jazz\n\
PERFORMER \"The Band\"\n\
TITLE \"The Record\"\n\
FILE \"disc.flac\" WAVE\n\
  TRACK 01 AUDIO\n\
    TITLE \"One\"\n\
    PERFORMER \"Guest\"\n\
    INDEX 01 00:00:00\n\
  TRACK 02 AUDIO\n\
    TITLE \"Two\"\n\
    INDEX 00 03:58:00\n\
    INDEX 01 04:00:15\n";

#[test]
fn a_sheet_yields_its_tracks() {
    assert_eq!(CueSheet::file_references(SHEET), vec!["disc.flac".to_string()]);
    let sheet = CueSheet::parse_str(SHEET, "/music", &vec!["/music/disc.flac".to_string()]);
    assert_eq!(sheet.global_title.as_deref(), Some("The Record"));
    assert_eq!(sheet.global_performer.as_deref(), Some("The Band"));
    assert_eq!(sheet.tracks.len(), 2);
    assert_eq!(sheet.tracks[0].title.as_deref(), Some("One"));
    assert_eq!(sheet.tracks[0].artist.as_deref(), Some("Guest"));
    assert_eq!(sheet.tracks[1].artist.as_deref(), Some("The Band"));
    assert_eq!(sheet.tracks[1].album.as_deref(), Some("The Record"));
    assert_eq!(sheet.tracks[0].physical_path, "/music/disc.flac");
    assert_eq!(sheet.tracks[0].cue_start_frames, 0);
    assert_eq!(sheet.tracks[0].cue_duration_frames, Some((4 * 60) * 75 + 15));
    assert_eq!(sheet.tracks[1].index0_frames, Some(238 * 75));
    assert_eq!(sheet.tracks[1].cue_start_frames, (4 * 60) * 75 + 15);
    assert_eq!(sheet.tracks[1].cue_duration_frames, None);
    assert_eq!(sheet.tracks[0].virtual_path, "/music/disc.flac|0.000|240.200|1");
}

#[test]
fn virtual_paths_read_back() {
    let path = cue_virtual_path("/music/disc.flac", 75, 150, 2);
    assert_eq!(path, "/music/disc.flac|1.000|2.000|2");
    let info = parse_cue_virtual_path(&path).unwrap();
    assert_eq!(info.physical_path, "/music/disc.flac");
    assert_eq!(info.start_time, "1.000");
    assert_eq!(info.duration, "2.000");
    assert_eq!(info.track_num, 2);
    assert!(parse_cue_virtual_path("/music/disc.flac").is_none());
    assert!(parse_cue_virtual_path("a|1|2|x").is_none());
    assert!(parse_cue_virtual_path("a|one|2|3").is_none());
    assert!(parse_cue_virtual_path("a|1||3").is_none());
    assert!(parse_cue_virtual_path("a|1e3|-2.5|3").is_some());
    assert!(parse_cue_virtual_path("a|1|2|3|4").is_none());
}

#[test]
fn time_stamps_count_frames() {
    assert_eq!(parse_timestamp_frames("00:02:00"), Some(150));
    assert_eq!(parse_timestamp_frames("01:00:74"), Some(4574));
    assert_eq!(parse_timestamp_frames("1:2"), None);
    assert_eq!(parse_timestamp_frames("a:b:c"), None);
    assert_eq!(parse_timestamp_frames("4294967295:00:00"), None);
}

#[test]
fn text_is_decoded_by_its_encoding() {
    assert_eq!(decode_text_auto("\u{feff}Grüße".as_bytes()), "Grüße");
    let gbk = [
        0xb2, 0xcc, 0xc7, 0xd9, 0xb5, 0xc4, 0xbb, 0xfa, 0xd3, 0xf6, 0xd3, 0xeb, 0xd6, 0xd0, 0xb9,
        0xfa, 0xb5, 0xc4, 0xd2, 0xf4, 0xc0, 0xd6,
    ];
    assert_eq!(decode_text_auto(&gbk), "蔡琴的机遇与中国的音乐");
}

#[test]
fn files_are_found_by_their_name_loosely() {
    let files = vec!["/music/Disc One.FLAC".to_string(), "/music/other.wav".to_string()];
    assert_eq!(cue_target("/music", "sub\\disc.flac"), "/music/sub/disc.flac");
    assert_eq!(
        resolve_audio_path("/music", "x.flac", true, Some(&files)),
        "/music/x.flac"
    );
    assert_eq!(
        resolve_audio_path("/music", "disc one.flac", false, Some(&files)),
        "/music/Disc One.FLAC"
    );
    assert_eq!(
        resolve_audio_path("/music", "disc-one.flac", false, Some(&files)),
        "/music/Disc One.FLAC"
    );
    assert_eq!(
        resolve_audio_path("/music", "nothing.ape", false, Some(&files)),
        "/music/nothing.ape"
    );
    let single = vec!["/music/only.ape".to_string(), "/music/note.txt".to_string()];
    assert_eq!(
        resolve_audio_path("/music", "nothing.wav", false, Some(&single)),
        "/music/only.ape"
    );
    assert_eq!(
        resolve_audio_path("/music", "nothing.wav", false, None),
        "/music/nothing.wav"
    );
    assert_eq!(normalize_for_fuzzy_match("Ab-C (1) Ä"), "abc1ä");
}

#[test]
fn sheets_are_told_by_their_ending() {
    assert!(is_cue_path("/a/B.CUE"));
    assert!(!is_cue_path("/a/b.cues"));
}
