use gruvberry::color::{frequency_to_color, Rgb};
use gruvberry::frame::{plan_frame, FrameStep};
use gruvberry::history::SampleHistory;
use gruvberry::layout::{
    bar_height, column_band, freq_label, layout_for_width, legend_band_index, legend_row,
    num_digits, time_parts,
};
use gruvberry::lifecycle::{monitor_action, MonitorStep};
use gruvberry::magnitude::{bin_magnitudes, isqrt, magnitude};

#[test]
fn color_is_deterministic() {
    for total in [2usize, 7, 60, 156] {
        for index in 0..total {
            let a = frequency_to_color(index, total);
            let b = frequency_to_color(index, total);
            assert_eq!(a, b);
        }
    }
}

#[test]
fn color_endpoints_are_red_and_violet() {
    for total in [2usize, 3, 10, 60, 156] {
        assert_eq!(frequency_to_color(0, total), Rgb { r: 255, g: 0, b: 0 });
        assert_eq!(frequency_to_color(total - 1, total), Rgb { r: 148, g: 0, b: 211 });
    }
}

#[test]
fn color_interpolates_inside_first_segment() {
    // 13 bands: position 1/12 sits 6/12 of the way from red to orange.
    let c = frequency_to_color(1, 13);
    assert_eq!(c, Rgb { r: 255, g: 82, b: 0 });
}

#[test]
fn color_degenerate_band_counts() {
    assert_eq!(frequency_to_color(0, 0), Rgb { r: 255, g: 0, b: 0 });
    assert_eq!(frequency_to_color(0, 1), Rgb { r: 255, g: 0, b: 0 });
}

#[test]
fn history_trims_in_bulk_at_twice_window() {
    let mut h = SampleHistory::new(3);
    for s in 1..=7i64 {
        h.append(s);
        assert!(h.len() <= 6);
    }
    // The seventh append pushed the length to seven, so the oldest three
    // samples were dropped in one bulk trim.
    assert_eq!(h.len(), 4);
    let w = h.snapshot().expect("a full window is available");
    assert_eq!(w, vec![5, 6, 7]);
}

#[test]
fn history_never_exceeds_twice_window() {
    let mut h = SampleHistory::new(16);
    for s in 0..1000i64 {
        h.append(s);
        assert!(h.len() <= 32);
    }
}

#[test]
fn history_snapshot_needs_a_full_window() {
    let mut h = SampleHistory::new(4);
    h.append(10);
    h.append(11);
    h.append(12);
    assert!(h.snapshot().is_none());
    h.append(13);
    assert_eq!(h.snapshot().expect("window is full"), vec![10, 11, 12, 13]);
}

#[test]
fn isqrt_exact_values() {
    assert_eq!(isqrt(0), 0);
    assert_eq!(isqrt(1), 1);
    assert_eq!(isqrt(15), 3);
    assert_eq!(isqrt(16), 4);
    assert_eq!(isqrt(u64::MAX), 0xFFFF_FFFF);
}

#[test]
fn magnitude_is_euclidean_norm() {
    assert_eq!(magnitude(3, 4), 5);
    assert_eq!(magnitude(-3, 4), 5);
    assert_eq!(magnitude(0, 0), 0);
    assert_eq!(magnitude(0, -7), 7);
    assert_eq!(magnitude(1, 1), 1); // isqrt(2)
}

#[test]
fn bin_magnitudes_maps_every_bin() {
    let spectrum = vec![(3i64, 4i64), (0, 0), (-6, 8), (5, 12)];
    let mags = bin_magnitudes(&spectrum, 2);
    assert_eq!(mags, vec![5, 0]);
    let all = bin_magnitudes(&spectrum, 4);
    assert_eq!(all, vec![5, 0, 10, 13]);
}

#[test]
fn layout_tracks_width() {
    assert_eq!(layout_for_width(80), (76, 8));
    assert_eq!(layout_for_width(90), (86, 8));
    assert_eq!(layout_for_width(120), (116, 11));
    assert_eq!(layout_for_width(160), (156, 15));
    // Wider terminals are capped at the maximum display width.
    assert_eq!(layout_for_width(400), (156, 15));
}

#[test]
fn bar_height_is_proportional_with_floor_one() {
    assert_eq!(bar_height(0, 20), 1);
    assert_eq!(bar_height(100, 20), 20);
    assert_eq!(bar_height(50, 20), 10);
    assert_eq!(bar_height(5, 20), 1);
}

#[test]
fn column_band_covers_all_bands() {
    let n = 76;
    let width = 152;
    assert_eq!(column_band(0, width, n), 0);
    assert_eq!(column_band(width - 1, width, n), n - 1);
    for col in 0..width {
        assert!(column_band(col, width, n) < n);
    }
}

#[test]
fn legend_band_index_samples_proportionally() {
    assert_eq!(legend_band_index(0, 60, 8), 0);
    assert_eq!(legend_band_index(4, 60, 8), 30);
    assert_eq!(legend_band_index(8, 60, 8), 60);
}

#[test]
fn digits_counts_decimal_width() {
    assert_eq!(num_digits(0), 1);
    assert_eq!(num_digits(9), 1);
    assert_eq!(num_digits(10), 2);
    assert_eq!(num_digits(16), 2);
}

#[test]
fn legend_row_splits_evenly() {
    let row = legend_row(40, 8);
    assert_eq!(row.len(), 8);
    for (i, seg) in row.iter().enumerate() {
        assert_eq!(seg.label, i + 1);
        assert!(!seg.star);
        // Five cells: one bar, one digit, three dashes split 1 + 2.
        assert_eq!(seg.left_pad, 1);
        assert_eq!(seg.right_pad, 2);
    }
}

#[test]
fn legend_row_marks_the_remainder() {
    let row = legend_row(43, 8);
    assert_eq!(row.len(), 9);
    let last = &row[8];
    assert_eq!(last.label, 9);
    assert!(!last.star);
    assert_eq!(last.left_pad, 0);
    assert_eq!(last.right_pad, 1);

    let tight = legend_row(41, 8);
    assert_eq!(tight.len(), 9);
    assert!(tight[8].star);
}

#[test]
fn freq_label_switches_units_at_one_kilohertz() {
    let low = freq_label(950);
    assert!(!low.khz);
    assert_eq!(low.value, 950);
    let high = freq_label(1250);
    assert!(high.khz);
    assert_eq!(high.value, 1);
    assert_eq!(high.tenths, 2);
}

#[test]
fn time_parts_split_milliseconds() {
    assert_eq!(time_parts(2340), (2, 34));
    assert_eq!(time_parts(0), (0, 0));
    assert_eq!(time_parts(999), (0, 99));
}

#[test]
fn quit_input_wins_over_everything() {
    let step = plan_frame(true, true, 0, 10_000, 120, 40, 2048, 1024);
    assert_eq!(step, FrameStep::Quit);
}

#[test]
fn cancellation_exits_within_one_frame() {
    // Whatever else the frame would do, a set flag ends the loop.
    let step = plan_frame(false, true, 0, 10_000, 120, 40, 2048, 1024);
    assert_eq!(step, FrameStep::Finish);
}

#[test]
fn playback_end_exits_normally() {
    let step = plan_frame(false, false, 10_000, 10_000, 120, 40, 2048, 1024);
    assert_eq!(step, FrameStep::Finish);
}

#[test]
fn small_terminal_shows_only_the_notice() {
    assert_eq!(plan_frame(false, false, 0, 10_000, 79, 40, 2048, 1024), FrameStep::TooSmall);
    assert_eq!(plan_frame(false, false, 0, 10_000, 120, 19, 2048, 1024), FrameStep::TooSmall);
}

#[test]
fn missing_window_skips_the_frame() {
    let step = plan_frame(false, false, 0, 10_000, 120, 40, 1023, 1024);
    assert_eq!(step, FrameStep::AwaitData);
}

#[test]
fn resize_changes_band_count_on_the_next_frame() {
    let narrow = plan_frame(false, false, 0, 10_000, 100, 40, 2048, 1024);
    let wide = plan_frame(false, false, 0, 10_000, 160, 40, 2048, 1024);
    match (narrow, wide) {
        (
            FrameStep::Render { num_bands: a, num_legends: la },
            FrameStep::Render { num_bands: b, num_legends: lb },
        ) => {
            assert_eq!(a, 96);
            assert_eq!(b, 156);
            assert_eq!(la, 9);
            assert_eq!(lb, 15);
        }
        _ => panic!("both frames should render"),
    }
}

#[test]
fn monitor_decision_table() {
    assert_eq!(monitor_action(false, false), MonitorStep::Wait);
    assert_eq!(monitor_action(true, false), MonitorStep::Done);
    assert_eq!(monitor_action(false, true), MonitorStep::StopPlayback);
    // First setter wins: cancellation is honored even if playback has
    // also drained.
    assert_eq!(monitor_action(true, true), MonitorStep::StopPlayback);
}
