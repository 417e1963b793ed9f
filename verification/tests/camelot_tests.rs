use mixplan::camelot::calc_key_distance;
use mixplan::camelot::camelot_to_semitone;
use mixplan::camelot::get_camelot_key;
use mixplan::camelot::is_camelot_compatible;
use mixplan::camelot::parse_camelot;

#[test]
fn major_wheel_positions() {
    let expect = ["8B", "3B", "10B", "5B", "12B", "7B", "2B", "9B", "4B", "11B", "6B", "1B"];
    for root in 0..12 {
        assert_eq!(get_camelot_key(root, 0).as_deref(), Some(expect[root as usize]));
    }
}

#[test]
fn minor_wheel_positions() {
    let expect = ["5A", "12A", "7A", "2A", "9A", "4A", "11A", "6A", "1A", "8A", "3A", "10A"];
    for root in 0..12 {
        assert_eq!(get_camelot_key(root, 1).as_deref(), Some(expect[root as usize]));
    }
}

#[test]
fn camelot_rejects_bad_root_or_mode() {
    assert_eq!(get_camelot_key(-1, 0), None);
    assert_eq!(get_camelot_key(12, 0), None);
    assert_eq!(get_camelot_key(0, 2), None);
}

#[test]
fn parse_accepts_trimmed_and_lowercase() {
    assert_eq!(parse_camelot("8B"), Some((8, 'B')));
    assert_eq!(parse_camelot(" 10a "), Some((10, 'A')));
    assert_eq!(parse_camelot("12b"), Some((12, 'B')));
    assert_eq!(parse_camelot("+7A"), Some((7, 'A')));
}

#[test]
fn parse_rejects_out_of_range_and_garbage() {
    assert_eq!(parse_camelot("0B"), None);
    assert_eq!(parse_camelot("13B"), None);
    assert_eq!(parse_camelot("-3A"), None);
    assert_eq!(parse_camelot("B"), None);
    assert_eq!(parse_camelot("8C"), None);
    assert_eq!(parse_camelot(""), None);
    assert_eq!(parse_camelot("8 8B"), None);
}

#[test]
fn wheel_compatibility() {
    assert!(is_camelot_compatible("8B", "9B"));
    assert!(!is_camelot_compatible("8B", "10B"));
    assert!(is_camelot_compatible("12B", "1B"));
    // The relative key shares the wheel number and mixes cleanly.
    assert!(is_camelot_compatible("8B", "8A"));
    assert!(is_camelot_compatible("5A", "5A"));
    assert!(!is_camelot_compatible("8B", "9A"));
}

#[test]
fn wheel_text_parses_back() {
    for root in 0..12 {
        for mode in 0..2 {
            let key = get_camelot_key(root, mode).unwrap();
            let (num, letter) = parse_camelot(&key).unwrap();
            assert_eq!(format!("{num}{letter}"), key);
        }
    }
}

#[test]
fn semitone_positions() {
    assert_eq!(camelot_to_semitone(8, 'B'), 0);
    assert_eq!(camelot_to_semitone(9, 'B'), 7);
    assert_eq!(camelot_to_semitone(8, 'A'), 9);
    assert_eq!(camelot_to_semitone(99, 'B'), 0);
}

#[test]
fn key_distances() {
    assert_eq!(calc_key_distance(Some("8B"), Some("8B")), (0, 0));
    assert_eq!(calc_key_distance(Some("8B"), Some("9B")), (1, 0));
    assert_eq!(calc_key_distance(None, Some("9B")), (100, 0));
    // C major against G major two wheel steps away: a shift of +5 wraps to
    // -7, so the shortest path is 0 - 2 = ... the chromatic delta.
    let (dist, shift) = calc_key_distance(Some("8B"), Some("10B"));
    assert_eq!(dist, 2);
    assert_eq!(shift, -2);
}
