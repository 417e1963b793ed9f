use mixplan::scan::accepts_media_file;
use mixplan::download::parse_content_range_total;
use mixplan::download::use_multi_stream;
use mixplan::textconv::TextConverter;

#[test]
fn scanner_accepts_common_audio() {
    assert!(accepts_media_file(b"mp3", 2_000_000, 200_000));
    assert!(accepts_media_file(b"FLAC", 2_000_000, 200_000));
    assert!(accepts_media_file(b"aif", 1_048_576, 30_000));
}

#[test]
fn scanner_rejects_small_short_or_foreign_files() {
    assert!(!accepts_media_file(b"txt", 2_000_000, 200_000));
    assert!(!accepts_media_file(b"mp3", 1_000_000, 200_000));
    assert!(!accepts_media_file(b"mp3", 2_000_000, 29_999));
    assert!(!accepts_media_file(b"mp3", 2_000_000, 7_200_001));
}

#[test]
fn content_range_totals() {
    assert_eq!(parse_content_range_total("bytes 0-0/12345"), Some(12345));
    assert_eq!(parse_content_range_total("bytes 0-0/*"), None);
    assert_eq!(parse_content_range_total("12345"), None);
    assert_eq!(parse_content_range_total("bytes 0-0/"), None);
    assert_eq!(
        parse_content_range_total("bytes 0-0/18446744073709551615"),
        Some(u64::MAX)
    );
    assert_eq!(parse_content_range_total("bytes 0-0/18446744073709551616"), None);
}

#[test]
fn multi_stream_threshold() {
    assert!(use_multi_stream(5_242_881, 2));
    assert!(!use_multi_stream(5_242_880, 2));
    assert!(!use_multi_stream(5_242_881, 1));
}

#[test]
fn text_converter_simplified_to_traditional() {
    let conv = TextConverter::new("s2t.json").expect("built-in configuration");
    // A simplified character must come back in its traditional form, not
    // unchanged.
    assert_eq!(conv.convert("汉字"), "漢字");
}

#[test]
fn text_converter_rejects_unknown_config() {
    assert!(TextConverter::new("no-such-config.json").is_err());
}
