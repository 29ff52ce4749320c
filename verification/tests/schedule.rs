use ballistic_deposition::sim::schedule::{count_time_points, next_batch, MAX_TIME_POINTS};

#[test]
fn first_batches_are_monolayers() {
    assert_eq!(next_batch(0, 8), 8);
    assert_eq!(next_batch(8, 8), 8);
    assert_eq!(next_batch(99, 8), 8);
    assert_eq!(next_batch(0, 1), 1);
    assert_eq!(next_batch(50, 1000), 1000);
}

#[test]
fn later_batches_grow_with_the_particle_count() {
    assert_eq!(next_batch(100, 8), 2);
    assert_eq!(next_batch(199, 8), 2);
    assert_eq!(next_batch(200, 8), 3);
    assert_eq!(next_batch(250, 8), 3);
    assert_eq!(next_batch(80000, 8), 801);
    assert_eq!(next_batch(u64::MAX, 8), u64::MAX / 100 + 1);
}

#[test]
fn sample_points_of_small_runs() {
    assert_eq!(count_time_points(8, 0), 0);
    assert_eq!(count_time_points(0, 10), 0);
    assert_eq!(count_time_points(8, 1), 1);
    assert_eq!(count_time_points(1, 3), 3);
    assert_eq!(count_time_points(4, 30), 35);
    assert_eq!(count_time_points(16, 50), 174);
}

#[test]
fn sample_points_of_the_standard_run_on_eight_columns() {
    assert_eq!(count_time_points(8, 10000), 640);
}

#[test]
fn sample_points_stay_below_the_bound() {
    assert!(count_time_points(u32::MAX, u32::MAX) <= MAX_TIME_POINTS);
    assert!(count_time_points(1, u32::MAX) <= MAX_TIME_POINTS);
    assert!(count_time_points(100000, 1000000) <= MAX_TIME_POINTS);
}

#[test]
fn dry_run_follows_the_batches() {
    for (l, t_max) in [(8u32, 100u32), (3, 77), (100, 5), (1, 1000)] {
        let goal = l as u64 * t_max as u64;
        let mut m = 0u64;
        let mut steps = 0usize;
        while m < goal {
            m += next_batch(m, l);
            steps += 1;
        }
        assert_eq!(count_time_points(l, t_max), steps);
    }
}
