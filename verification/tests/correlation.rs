use songcompare::correlation::{
    apply_shift, compare_frames, correction_for_lag, fft_search_limit, fft_size, overlap_range,
    GccPhatCorrelator, NoCorrelator, SimpleCorrelator, COMPARE_FRAMES,
};

#[test]
fn correlators_are_built_with_their_debug_flag() {
    assert_eq!(NoCorrelator::new(), NoCorrelator {});
    assert!(SimpleCorrelator::new(true).debug);
    assert!(!SimpleCorrelator::new(false).debug);
    assert!(GccPhatCorrelator::new(true).debug);
}

#[test]
fn next_power_of_2_rounds_up() {
    assert_eq!(GccPhatCorrelator::next_power_of_2(0), 1);
    assert_eq!(GccPhatCorrelator::next_power_of_2(1), 1);
    assert_eq!(GccPhatCorrelator::next_power_of_2(2), 2);
    assert_eq!(GccPhatCorrelator::next_power_of_2(3), 4);
    assert_eq!(GccPhatCorrelator::next_power_of_2(1000), 1024);
    assert_eq!(GccPhatCorrelator::next_power_of_2(1024), 1024);
    assert_eq!(GccPhatCorrelator::next_power_of_2(1025), 2048);
    assert_eq!(GccPhatCorrelator::next_power_of_2(12000), 16384);
}

#[test]
fn zero_shift_keeps_samples() {
    let samples = [1, 2, 3, 4];
    assert_eq!(apply_shift(&samples, 0, 2, 0), vec![1, 2, 3, 4]);
}

#[test]
fn positive_shift_delays_by_whole_frames() {
    let samples = [1, 2, 3, 4];
    // Three samples round down to one stereo frame.
    assert_eq!(apply_shift(&samples, 3, 2, 0), vec![0, 0, 1, 2, 3, 4]);
    assert_eq!(apply_shift(&samples, 4, 2, 0), vec![0, 0, 0, 0, 1, 2, 3, 4]);
}

#[test]
fn negative_shift_trims_the_beginning() {
    let samples = [1, 2, 3, 4, 5, 6];
    assert_eq!(apply_shift(&samples, -2, 2, 0), vec![3, 4, 5, 6]);
    assert_eq!(apply_shift(&samples, -5, 2, 0), vec![5, 6]);
}

#[test]
fn shift_below_one_frame_changes_nothing_but_a_copy() {
    let samples = [1, 2, 3, 4];
    assert_eq!(apply_shift(&samples, 1, 2, 0), vec![1, 2, 3, 4]);
    assert_eq!(apply_shift(&samples, -1, 2, 0), vec![1, 2, 3, 4]);
}

#[test]
fn oversized_advance_gives_silence_of_the_same_length() {
    let samples = [7, 8, 9, 10];
    assert_eq!(apply_shift(&samples, -4, 2, 0), vec![0, 0, 0, 0]);
    assert_eq!(apply_shift(&samples, -100, 1, 0), vec![0, 0, 0, 0]);
}

#[test]
fn apply_shift_works_on_float_samples() {
    let samples = [0.5f32, -0.5, 0.25, -0.25];
    assert_eq!(apply_shift(&samples, 2, 2, 0.0), vec![0.0, 0.0, 0.5, -0.5, 0.25, -0.25]);
}

#[test]
fn correction_undoes_a_measured_delay() {
    // The second source is the first one, two stereo frames late.
    let source = [1, 2, 3, 4, 5, 6];
    let delayed = [0, 0, 0, 0, 1, 2, 3, 4, 5, 6];
    let correction = correction_for_lag(2, 2);
    assert_eq!(correction, -4);
    assert_eq!(apply_shift(&delayed, correction, 2, 0), source.to_vec());
}

#[test]
fn correction_undoes_a_measured_advance() {
    // The second source lost its first frame: it leads by one frame.
    let source = [1, 2, 3, 4, 5, 6];
    let advanced = [3, 4, 5, 6];
    let correction = correction_for_lag(-1, 2);
    assert_eq!(correction, 2);
    assert_eq!(apply_shift(&advanced, correction, 2, 0), vec![0, 0, 3, 4, 5, 6]);
    assert_eq!(apply_shift(&advanced, correction, 2, 0).len(), source.len());
}

#[test]
fn compare_frames_takes_the_shorter_source_capped() {
    assert_eq!(compare_frames(10, 7, 2), 3);
    assert_eq!(compare_frames(7, 10, 2), 3);
    assert_eq!(compare_frames(100_000, 90_000, 2), COMPARE_FRAMES);
    assert_eq!(compare_frames(0, 5, 1), 0);
}

#[test]
fn overlap_range_matches_the_shift() {
    assert_eq!(overlap_range(5, 5, 0), (0, 5));
    assert_eq!(overlap_range(5, 5, 2), (0, 3));
    assert_eq!(overlap_range(5, 5, -2), (2, 5));
    assert_eq!(overlap_range(5, 3, -1), (1, 4));
    assert_eq!(overlap_range(5, 5, 7), (0, 0));
    assert_eq!(overlap_range(5, 5, -7), (5, 5));
    assert_eq!(overlap_range(0, 5, 0), (0, 0));
}

#[test]
fn fft_size_and_search_limit() {
    assert_eq!(fft_size(10000, 1000), 16384);
    assert_eq!(fft_size(3, 0), 4);
    assert_eq!(fft_search_limit(1000, 16384), 1000);
    assert_eq!(fft_search_limit(1000, 1024), 512);
}

#[test]
fn an_advance_undoes_a_delay_of_any_size() {
    let samples = [1, 2, 3, 4, 5, 6];
    for shift in 1..9 {
        let delayed = apply_shift(&samples, shift, 2, 0);
        assert_eq!(apply_shift(&delayed, -shift, 2, 0), samples.to_vec());
    }
}
