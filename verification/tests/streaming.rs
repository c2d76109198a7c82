use srs_inference::streaming::{StreamError, StreamGeometry, TEMPORAL_RECEPTIVE_RADIUS_FRAMES};

#[test]
fn sizes_are_checked() {
    assert_eq!(
        StreamGeometry::new(0, 1, 1).unwrap_err().message(),
        "--chunk-frames must be positive"
    );
    assert_eq!(
        StreamGeometry::new(8, -1, 1).unwrap_err().message(),
        "context frame counts cannot be negative"
    );
    assert!(matches!(StreamGeometry::new(8, 1, -1), Err(StreamError::NegativeContext)));
    assert!(StreamGeometry::new(1, 0, 0).is_ok());
}

#[test]
fn window_must_fit_into_the_input() {
    let geometry = StreamGeometry::new(8, 129, 129).unwrap();
    assert_eq!(
        geometry.plan(265).unwrap_err().message(),
        "the fixed 266-frame window exceeds the 265-frame input; reduce chunk/context sizes"
    );
    assert_eq!(geometry.plan(266).unwrap().window_frames, 266);
}

#[test]
fn blocks_have_the_expected_windows() {
    let plan = StreamGeometry::new(8, 2, 3).unwrap().plan(20).unwrap();
    let blocks = plan.blocks();
    let found: Vec<(i32, i32, i32, i32)> = blocks
        .iter()
        .map(|b| (b.window_start, b.window_end, b.local_start, b.local_end))
        .collect();
    assert_eq!(found, vec![(0, 13, 0, 8), (6, 19, 2, 10), (7, 20, 9, 13)]);
}

#[test]
fn blocks_tile_the_stream_with_context() {
    for (chunk, left, right, total) in [(1, 0, 0, 1), (5, 3, 2, 10), (5, 3, 2, 37), (7, 0, 9, 100), (3, 20, 0, 23)] {
        let plan = StreamGeometry::new(chunk, left, right).unwrap().plan(total).unwrap();
        let mut next = 0;
        for b in plan.blocks() {
            assert!(0 <= b.window_start && b.window_end <= total);
            assert_eq!(b.window_end - b.window_start, left + chunk + right);
            assert_eq!(b.window_start + b.local_start, next);
            assert!(b.local_start < b.local_end);
            for t in next..b.window_start + b.local_end {
                assert!(b.window_start <= std::cmp::max(0, t - left));
                assert!(b.window_end >= std::cmp::min(total, t + right + 1));
            }
            next = b.window_start + b.local_end;
        }
        assert_eq!(next, total);
    }
}

#[test]
fn exact_streams_need_the_whole_radius() {
    assert_eq!(TEMPORAL_RECEPTIVE_RADIUS_FRAMES, 129);
    assert!(StreamGeometry::new(8, 129, 129).unwrap().is_exact());
    assert!(!StreamGeometry::new(8, 128, 129).unwrap().is_exact());
    assert!(!StreamGeometry::new(8, 129, 128).unwrap().is_exact());
}

#[test]
fn latency_counts_block_lookahead_and_frame() {
    assert_eq!(StreamGeometry::new(8, 129, 129).unwrap().latency_samples(), 138 * 2048);
}

#[test]
fn windows_of_another_shape_are_noticed() {
    let plan = StreamGeometry::new(8, 2, 3).unwrap().plan(20).unwrap();
    assert!(plan.check_window(&[1, 13, 2049, 2]).is_ok());
    assert_eq!(
        plan.check_window(&[1, 12, 2049, 2]).unwrap_err().message(),
        "streaming window shape changed unexpectedly: [1, 12, 2049, 2]"
    );
    assert!(plan.check_window(&[2, 13, 2049, 2]).is_err());
}

#[test]
fn frames_that_went_missing_are_noticed() {
    let plan = StreamGeometry::new(8, 2, 3).unwrap().plan(20).unwrap();
    assert!(plan.check_output(20).is_ok());
    assert_eq!(
        plan.check_output(19).unwrap_err().message(),
        "stream produced 19 frames, expected 20"
    );
}

#[test]
fn limits_of_geometries_are_tested() {
    let window = |left, chunk, right| StreamGeometry::new(chunk, left, right).unwrap().window_fits();
    assert!(window(i32::MAX - 2, 1, 1));
    assert!(!window(i32::MAX - 1, 1, 1));
    let latency = |chunk, right| StreamGeometry::new(chunk, 0, right).unwrap().latency_fits();
    assert!(latency(1_048_574, 0));
    assert!(!latency(1_048_574, 1));
    assert!(!latency(i32::MAX, i32::MAX));
}
