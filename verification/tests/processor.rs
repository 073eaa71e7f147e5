use songcompare::processor::{deinterleave, interleave, rate_plan, Processor, RatePlan};

#[test]
fn processor_new_builds_a_processor() {
    assert_eq!(Processor::new(), Processor {});
}

#[test]
fn deinterleave_splits_by_channel() {
    let samples = [1, 2, 3, 4, 5, 6];
    assert_eq!(deinterleave(&samples, 2), vec![vec![1, 3, 5], vec![2, 4, 6]]);
    assert_eq!(deinterleave(&samples, 3), vec![vec![1, 4], vec![2, 5], vec![3, 6]]);
}

#[test]
fn deinterleave_keeps_a_partial_last_frame() {
    let samples = [1, 2, 3, 4, 5];
    assert_eq!(deinterleave(&samples, 2), vec![vec![1, 3, 5], vec![2, 4]]);
    assert_eq!(deinterleave(&[] as &[i32], 2), vec![Vec::<i32>::new(), Vec::new()]);
}

#[test]
fn interleave_merges_frame_by_frame() {
    let channels = vec![vec![1, 3, 5], vec![2, 4, 6]];
    assert_eq!(interleave(&channels), vec![1, 2, 3, 4, 5, 6]);
}

#[test]
fn interleave_takes_the_frames_of_the_first_channel() {
    let channels = vec![vec![1, 3], vec![2, 4, 6]];
    assert_eq!(interleave(&channels), vec![1, 2, 3, 4]);
}

#[test]
fn interleave_undoes_deinterleave() {
    let samples: Vec<f32> = (0..12).map(|i| i as f32 * 0.5).collect();
    assert_eq!(interleave(&deinterleave(&samples, 3)), samples);
}

#[test]
fn deinterleave_undoes_interleave() {
    let channels = vec![vec![1, 2], vec![3, 4], vec![5, 6]];
    assert_eq!(deinterleave(&interleave(&channels), 3), channels);
}

#[test]
fn rate_plan_follows_the_flag() {
    assert_eq!(rate_plan(48_000, 48_000, false), RatePlan::Keep);
    assert_eq!(rate_plan(44_100, 48_000, true), RatePlan::Resample);
    assert_eq!(rate_plan(44_100, 48_000, false), RatePlan::Refuse);
}
