use songcompare::tracks::{
    crossfade_window, next_track, previous_track, random_track, shuffled_order, CrossfadeWindow, PREFADE_SAMPLES,
};

#[test]
fn shuffle_follows_the_random_numbers() {
    assert_eq!(shuffled_order(4, &vec![0, 1, 0, 3]), vec![2, 1, 0, 3]);
    assert_eq!(shuffled_order(4, &vec![9, 9, 9, 9]), vec![2, 3, 0, 1]);
}

#[test]
fn shuffle_of_few_tracks() {
    assert_eq!(shuffled_order(0, &vec![]), Vec::<usize>::new());
    assert_eq!(shuffled_order(1, &vec![7]), vec![0]);
}

#[test]
fn shuffle_is_a_permutation() {
    let random: Vec<u64> = (0..10).map(|i| (i * 7919 + 13) as u64).collect();
    let mut order = shuffled_order(10, &random);
    order.sort();
    assert_eq!(order, (0..10).collect::<Vec<usize>>());
}

#[test]
fn next_and_previous_wrap_around() {
    assert_eq!(next_track(0, 3), 1);
    assert_eq!(next_track(2, 3), 0);
    assert_eq!(previous_track(0, 3), 2);
    assert_eq!(previous_track(2, 3), 1);
    assert_eq!(next_track(0, 1), 0);
    assert_eq!(previous_track(0, 1), 0);
}

#[test]
fn random_track_is_another_track() {
    assert_eq!(random_track(0, 1, 12345), 0);
    assert_eq!(random_track(0, 3, 0), 1);
    assert_eq!(random_track(0, 3, 1), 2);
    assert_eq!(random_track(2, 3, 0), 0);
    assert_eq!(random_track(2, 3, 7), 1);
    for r in 0..20u64 {
        let t = random_track(1, 4, r);
        assert!(t < 4 && t != 1);
    }
}

#[test]
fn crossfade_window_is_frame_aligned_and_clamped() {
    assert_eq!(PREFADE_SAMPLES, 128);
    assert_eq!(
        crossfade_window(1000, 128, 256, 10_000, 10_000, 2),
        CrossfadeWindow { position: 1000, fade_start: 1128, fade_end: 1384 }
    );
    assert_eq!(
        crossfade_window(1000, 127, 255, 10_000, 10_000, 2),
        CrossfadeWindow { position: 1000, fade_start: 1126, fade_end: 1380 }
    );
    assert_eq!(
        crossfade_window(1000, 128, 256, 1100, 5000, 2),
        CrossfadeWindow { position: 1000, fade_start: 1100, fade_end: 1100 }
    );
    assert_eq!(
        crossfade_window(9000, 128, 256, 10_000, 2000, 1),
        CrossfadeWindow { position: 2000, fade_start: 2000, fade_end: 2000 }
    );
}
