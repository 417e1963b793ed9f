use mixplan::grid::find_best_phrase_start;
use mixplan::grid::snap_cut_out_floor;
use mixplan::grid::snap_to_bar_floor;
use mixplan::grid::snap_to_phrase_floor;

#[test]
fn snap_to_bar_handles_float_edge() {
    // 10 ms short of the 32nd bar at 120 BPM snaps up onto the bar.
    let bpm = 120_000;
    let first_beat = 0;
    let confidence = 1000;
    let time = 64_000 - 10;
    let snapped = snap_to_bar_floor(time, bpm, first_beat, confidence);
    assert_eq!(snapped, 64_000);
}

#[test]
fn phrase_start_low_confidence_falls_back_to_fade_in() {
    let res = find_best_phrase_start(100_000, 120_000, 0, 5_000, 100);
    assert_eq!(res, 5_000);
}

#[test]
fn phrase_start_prefers_32_bars() {
    let res = find_best_phrase_start(100_000, 120_000, 0, 10_000, 1000);
    assert_eq!(res, 36_000);
}

#[test]
fn phrase_start_downgrades_to_16_bars() {
    let res = find_best_phrase_start(50_000, 120_000, 0, 10_000, 1000);
    assert_eq!(res, 18_000);
}

#[test]
fn snap_on_grid_is_identity() {
    // Times already on the bar grid stay put.
    for n in 0..8i64 {
        let t = 500 + n * 2000;
        assert_eq!(snap_to_bar_floor(t, 120_000, 500, 1000), t);
    }
}

#[test]
fn snap_rounds_up_within_tolerance() {
    // Within 50 ms below a boundary the snap lands on the boundary, not a
    // whole bar back.
    assert_eq!(snap_to_bar_floor(7_951, 120_000, 0, 1000), 8_000);
    assert_eq!(snap_to_bar_floor(7_949, 120_000, 0, 1000), 6_000);
}

#[test]
fn snap_without_tempo_is_identity() {
    assert_eq!(snap_to_bar_floor(12_345, 0, 0, 1000), 12_345);
    assert_eq!(snap_to_bar_floor(12_345, 120_000, 0, 399), 12_345);
}

#[test]
fn phrase_snap_uses_sixteen_beats() {
    // At 120 BPM a sixteen-beat phrase is 8 s.
    assert_eq!(snap_to_phrase_floor(17_000, 120_000, 0, 1000, 16), 16_000);
    assert_eq!(snap_to_phrase_floor(15_999, 120_000, 0, 1000, 16), 16_000);
}

#[test]
fn cut_out_snap_respects_cap() {
    // The phrase snap would land at 16 s; capped at 12 s it falls back to
    // the bar grid.
    assert_eq!(snap_cut_out_floor(17_000, 120_000, 0, 1000, 20_000), 16_000);
    assert_eq!(snap_cut_out_floor(17_000, 120_000, 0, 1000, 12_000), 12_000);
}
