use cargo_diff_tools::intersect_intervals;

fn linear_scan(start: usize, end: usize, intervals: &[(usize, usize)]) -> bool {
    intervals.iter().any(|&(s, len)| s <= end && start < s + len)
}

#[test]
fn intersect_agrees_with_linear_scan() {
    let sets: Vec<Vec<(usize, usize)>> = vec![
        vec![],
        vec![(5, 1)],
        vec![(3, 3), (11, 1), (16, 15)],
        vec![(1, 2), (3, 1), (4, 4), (10, 2)],
    ];
    for ivs in &sets {
        for start in 0..35 {
            for end in start..35 {
                assert_eq!(
                    intersect_intervals(start, end, ivs),
                    linear_scan(start, end, ivs),
                    "{:?} {} {}",
                    ivs,
                    start,
                    end
                );
            }
        }
    }
}

#[test]
fn intersect_boundary_touch() {
    assert!(intersect_intervals(1, 10, &[(10, 5)]));
    assert!(intersect_intervals(14, 20, &[(10, 5)]));
    assert!(!intersect_intervals(15, 20, &[(10, 5)]));
    assert!(!intersect_intervals(1, 9, &[(10, 5)]));
}

#[test]
fn intersect_before_and_after_all() {
    let ivs = [(10, 2), (20, 3)];
    assert!(!intersect_intervals(1, 5, &ivs));
    assert!(!intersect_intervals(30, 40, &ivs));
    assert!(!intersect_intervals(13, 19, &ivs));
    assert!(intersect_intervals(21, 21, &ivs));
}

#[test]
fn intersect_zero_length_marker() {
    assert!(intersect_intervals(1, 4, &[(4, 0)]));
    assert!(intersect_intervals(1, 6, &[(4, 0)]));
    assert!(!intersect_intervals(5, 6, &[(4, 0)]));
}
