use wordle_solver::calibration::{tally_buckets, BucketTally};

#[test]
fn tally_groups_and_sorts_buckets() {
    let obs = vec![(3, 2), (1, 4), (3, 4), (-2, 5), (1, 6), (3, 3)];
    let t = tally_buckets(&obs);
    assert_eq!(
        t,
        vec![
            BucketTally { index: -2, total_moves: 5, count: 1 },
            BucketTally { index: 1, total_moves: 10, count: 2 },
            BucketTally { index: 3, total_moves: 9, count: 3 },
        ]
    );
}

#[test]
fn tally_of_no_observations_is_empty() {
    assert!(tally_buckets(&Vec::new()).is_empty());
}

#[test]
fn tally_large_move_counts_do_not_overflow() {
    let obs = vec![(0, u32::MAX), (0, u32::MAX), (0, u32::MAX)];
    let t = tally_buckets(&obs);
    assert_eq!(t.len(), 1);
    assert_eq!(t[0].total_moves, 3 * u32::MAX as u128);
    assert_eq!(t[0].count, 3);
}
