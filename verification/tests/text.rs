//! Paths, numbers and the scans that can be cut anywhere.

use audio_engine_core::dsd::reverse_byte;
use audio_engine_core::dts::DtsDetector;
use audio_engine_core::hdcd::HdcdProcessor;
use audio_engine_core::number::{
    parse_i32, parse_u16, parse_u32, parse_unsigned, push_decimal, push_hex, push_three_digits,
    reads_as_real,
};
use audio_engine_core::path::{
    path_components, path_extension, path_file_name, path_file_stem, path_join, paths_same,
};
use audio_engine_core::text::{
    contains_literal, replaced, split_once_at, split_words, to_ascii_upper, to_chars, to_text,
    trimmed, CharClass,
};

fn text(chars: Option<Vec<char>>) -> Option<String> {
    chars.map(|chars| to_text(&chars))
}

#[test]
fn a_name_is_its_stem_and_its_extension() {
    for (path, name, stem, extension) in [
        ("/a/b.tar.gz", "b.tar.gz", "b.tar", Some("gz")),
        ("/a/.hidden", ".hidden", ".hidden", None),
        ("b/", "b", "b", None),
        ("b.", "b.", "b", Some("")),
    ] {
        let path = to_chars(path);
        assert_eq!(text(path_file_name(&path)).as_deref(), Some(name));
        assert_eq!(text(path_file_stem(&path)).as_deref(), Some(stem));
        assert_eq!(text(path_extension(&path)).as_deref(), extension);
    }
    assert_eq!(path_file_name(&to_chars("/a/..")), None);
    assert_eq!(path_file_name(&to_chars("/")), None);
}

#[test]
fn paths_are_joined_and_compared_by_their_components() {
    assert_eq!(to_text(&path_join(&to_chars("/a"), &to_chars("b"))), "/a/b");
    assert_eq!(to_text(&path_join(&to_chars("/a/"), &to_chars("b"))), "/a/b");
    assert_eq!(to_text(&path_join(&to_chars("/a"), &to_chars("/b"))), "/b");
    assert!(paths_same(&to_chars("/a//b/."), &to_chars("/a/b")));
    assert!(!paths_same(&to_chars("/a/b"), &to_chars("a/b")));
    assert_eq!(path_components(&to_chars("a/./b")).len(), 2);
}

#[test]
fn numbers_are_read_in_their_range() {
    assert_eq!(parse_u16(&to_chars("65535")), Some(65_535));
    assert_eq!(parse_u16(&to_chars("65536")), None);
    assert_eq!(parse_u32(&to_chars("+7")), Some(7));
    assert_eq!(parse_u32(&to_chars("-7")), None);
    assert_eq!(parse_i32(&to_chars("-2147483648")), Some(i32::MIN));
    assert_eq!(parse_i32(&to_chars("2147483648")), None);
    assert_eq!(parse_unsigned(&to_chars("12"), 11), None);
    assert_eq!(parse_unsigned(&to_chars(""), 11), None);
    let mut written = Vec::new();
    push_decimal(&mut written, 1_048_576);
    assert_eq!(parse_u32(&written), Some(1_048_576));
    let mut hex = Vec::new();
    push_hex(&mut hex, 0xbeef, 6);
    assert_eq!(to_text(&hex), "00beef");
}

#[test]
fn numbers_with_fractions_are_recognised() {
    for good in ["0", "-1.5", "+.5", "5.", "1e9", "1.E-3", "inf", "-Infinity", "NaN"] {
        assert!(reads_as_real(&to_chars(good)), "{good}");
        assert!(good.parse::<f64>().is_ok(), "{good}");
    }
    for bad in ["", "+", ".", "e5", "1e", "1e+", "1.2.3", " 1", "infinit", "0x1", "--1", "1_0"] {
        assert!(!reads_as_real(&to_chars(bad)), "{bad}");
        assert!(bad.parse::<f64>().is_err(), "{bad}");
    }
    let mut seconds = to_chars("240.");
    push_three_digits(&mut seconds, 7);
    assert_eq!(to_text(&seconds), "240.007");
    assert!(reads_as_real(&seconds));
}

#[test]
fn texts_are_trimmed_and_split() {
    assert_eq!(to_text(&trimmed(&to_chars("\u{3000} a b\n"), CharClass::Whitespace)), "a b");
    assert_eq!(split_words(&to_chars(" a\tb  c ")).len(), 3);
    assert_eq!(to_text(&to_ascii_upper(&to_chars("aÄz"))), "AÄZ");
    assert_eq!(to_text(&replaced(&to_chars("a\\b"), '\\', '/')), "a/b");
    assert!(contains_literal(&to_chars("disc.iso|2"), ".iso|"));
    let (before, after) = split_once_at(&to_chars("a,b,c"), ',').unwrap();
    assert_eq!((to_text(&before), to_text(&after)), ("a".to_string(), "b,c".to_string()));
    assert!(split_once_at(&to_chars("abc"), ',').is_none());
}

#[test]
fn reversing_twice_gives_the_byte_back() {
    for byte in 0..=255_u8 {
        assert_eq!(reverse_byte(byte), byte.reverse_bits());
        assert_eq!(reverse_byte(reverse_byte(byte)), byte);
    }
}

#[test]
fn scans_can_be_cut_anywhere() {
    let samples: Vec<i16> = (0..60).collect();
    let mut whole = HdcdProcessor::new();
    whole.scan_samples_s16(&samples);
    whole.scan_samples_s16(&samples);
    for cut in 0..samples.len() {
        let mut pieces = HdcdProcessor::new();
        pieces.scan_samples_s16(&samples[..cut]);
        pieces.scan_samples_s16(&samples[cut..]);
        pieces.scan_samples_s16(&samples);
        assert_eq!(pieces, whole);
    }
    assert!(whole.is_hdcd_detected());
    assert_eq!(whole.control_counter, 60);

    let marked = [0x1fff, 0xe800_u16 as i16, 5, 0xff1f_u16 as i16, 0x00e8];
    for cut in 0..=marked.len() {
        let mut pieces = DtsDetector::new();
        pieces.feed_samples_s16(&marked[..cut]);
        assert!(pieces.feed_samples_s16(&marked[cut..]));
    }
}
