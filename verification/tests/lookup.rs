use wavetable::table::{TableError, WaveFrame, WaveTable};

fn frame(time: u64, amplitude: i64) -> WaveFrame {
    WaveFrame { time, amplitude }
}

/// Four anchors at a quarter period each, one full sine-like swing:
/// amplitudes 0, 1, 0, -1 in a scale of one million.
fn four_point_table() -> WaveTable {
    let frames = vec![
        frame(0, 0),
        frame(250_000_000, 1_000_000),
        frame(500_000_000, 0),
        frame(750_000_000, -1_000_000),
    ];
    WaveTable::from_frames(frames).unwrap()
}

#[test]
fn exact_anchor_times_return_anchor_amplitudes() {
    let t = four_point_table();
    assert_eq!(t.lookup(0), 0);
    assert_eq!(t.lookup(250_000_000), 1_000_000);
    assert_eq!(t.lookup(500_000_000), 0);
    assert_eq!(t.lookup(750_000_000), -1_000_000);
}

#[test]
fn midpoint_interpolates_halfway() {
    let t = four_point_table();
    // Halfway between (0, 0) and (0.25, 1.0): 0.5 in the same scale.
    assert_eq!(t.lookup(125_000_000), 500_000);
}

#[test]
fn interpolation_lies_on_the_line() {
    let frames = vec![frame(0, 0), frame(500_000_000, 1_000)];
    let t = WaveTable::from_frames(frames).unwrap();
    assert_eq!(t.lookup(100_000_000), 200);
    assert_eq!(t.lookup(250_000_000), 500);
    assert_eq!(t.lookup(400_000_000), 800);
}

#[test]
fn lookup_above_last_anchor_wraps_to_first() {
    let t = four_point_table();
    // Between (0.75, -1.0) and the first anchor treated as (1.0, 0.0):
    // -1.0 + 0.6 * (0.0 - (-1.0)) = -0.4 in a scale of one million.
    assert_eq!(t.lookup(900_000_000), -400_000);
}

#[test]
fn lookup_below_first_anchor_wraps_to_last() {
    let frames = vec![frame(250_000_000, 10), frame(750_000_000, 20)];
    let t = WaveTable::from_frames(frames).unwrap();
    // Left neighbour is (0.75 - 1.0, 20), right is (0.25, 10):
    // 20 + 0.75 * (10 - 20) = 12.5, rounded toward 20 to 13.
    assert_eq!(t.lookup(125_000_000), 13);
}

#[test]
fn single_frame_table_is_flat() {
    let t = WaveTable::from_frames(vec![frame(300_000_000, 42)]).unwrap();
    assert_eq!(t.lookup(300_000_000), 42);
    assert_eq!(t.lookup(0), 42);
    assert_eq!(t.lookup(999_999_999), 42);
}

#[test]
fn empty_frames_are_rejected() {
    let r = WaveTable::from_frames(Vec::new());
    assert_eq!(r.unwrap_err(), TableError::EmptyTable);
}

#[test]
fn unsorted_frames_are_rejected() {
    let frames = vec![frame(500_000_000, 1), frame(100_000_000, 2)];
    assert_eq!(
        WaveTable::from_frames(frames).unwrap_err(),
        TableError::MalformedTable
    );
}

#[test]
fn duplicate_times_are_rejected() {
    let frames = vec![frame(100_000_000, 1), frame(100_000_000, 2)];
    assert_eq!(
        WaveTable::from_frames(frames).unwrap_err(),
        TableError::MalformedTable
    );
}

#[test]
fn out_of_range_time_is_rejected() {
    let frames = vec![frame(0, 1), frame(1_000_000_000, 2)];
    assert_eq!(
        WaveTable::from_frames(frames).unwrap_err(),
        TableError::MalformedTable
    );
}

#[test]
fn synthesized_spaces_anchors_evenly() {
    let t = WaveTable::synthesized(vec![0, 5, -5, 9]).unwrap();
    assert_eq!(t.len(), 4);
    assert_eq!(t.lookup(0), 0);
    assert_eq!(t.lookup(250_000_000), 5);
    assert_eq!(t.lookup(500_000_000), -5);
    assert_eq!(t.lookup(750_000_000), 9);
}

#[test]
fn synthesized_empty_is_an_empty_table_error() {
    let r = WaveTable::synthesized(Vec::new());
    assert_eq!(r.unwrap_err(), TableError::EmptyTable);
}
