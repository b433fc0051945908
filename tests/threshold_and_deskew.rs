use lidar_odometry::adaptive_threshold::{isqrt, AdaptiveThreshold};
use lidar_odometry::deskew::{deskew_plan, locate_pose, pose_times_valid, scan_end_time, PoseBracket};

#[test]
fn integer_square_root() {
    assert_eq!(isqrt(0), 0);
    assert_eq!(isqrt(15), 3);
    assert_eq!(isqrt(16), 4);
    assert_eq!(isqrt(125000), 353);
    assert_eq!(isqrt(u128::MAX), u64::MAX);
}

#[test]
fn threshold_starts_at_seed() {
    let t = AdaptiveThreshold::new(100, 2000);
    assert_eq!(t.current_threshold(), 2000);
    let t = AdaptiveThreshold::new(100, 50);
    assert_eq!(t.current_threshold(), 100);
}

#[test]
fn threshold_follows_rms_of_residuals() {
    let mut t = AdaptiveThreshold::new(100, 2000);
    t.update(50); // at or below the floor: ignored
    assert_eq!(t.num_samples, 0);
    t.update(300);
    t.update(400);
    assert_eq!(t.model_sse, 250000);
    assert_eq!(t.current_threshold(), 353);
}

#[test]
fn threshold_never_below_floor() {
    let mut t = AdaptiveThreshold::new(100, 0);
    for d in [101u32, 101, 101, 0, 5, 200] {
        t.update(d);
        assert!(t.current_threshold() >= 100);
    }
}

#[test]
fn pose_time_validation() {
    assert!(pose_times_valid(&vec![1, 2, 3]));
    assert!(!pose_times_valid(&vec![1, 2, 2]));
    assert!(!pose_times_valid(&vec![3, 1]));
    assert!(pose_times_valid(&vec![]));
}

#[test]
fn pose_brackets() {
    let times = vec![10, 20, 40];
    assert_eq!(locate_pose(&times, 5), Some(PoseBracket::At(0)));
    assert_eq!(locate_pose(&times, 10), Some(PoseBracket::At(0)));
    assert_eq!(locate_pose(&times, 40), Some(PoseBracket::At(2)));
    assert_eq!(locate_pose(&times, 99), Some(PoseBracket::At(2)));
    assert_eq!(locate_pose(&times, 15), Some(PoseBracket::Between { prev: 0, elapsed: 5, span: 10 }));
    assert_eq!(locate_pose(&times, 20), Some(PoseBracket::Between { prev: 1, elapsed: 0, span: 20 }));
    assert_eq!(locate_pose(&vec![], 1), None);
}

#[test]
fn scan_end_is_latest_point_time() {
    assert_eq!(scan_end_time(&vec![5, 9, 7]), Some(9));
    assert_eq!(scan_end_time(&vec![]), None);
}

#[test]
fn deskew_needs_two_samples() {
    assert!(deskew_plan(&vec![1, 2], &vec![]).is_none());
    assert!(deskew_plan(&vec![1, 2], &vec![1]).is_none());
    assert!(deskew_plan(&vec![], &vec![1, 2]).is_none());
    assert!(deskew_plan(&vec![1, 2], &vec![2, 2]).is_none());
}

#[test]
fn deskew_plan_brackets_every_point() {
    let plan = deskew_plan(&vec![15, 30, 5], &vec![10, 20, 40]).unwrap();
    assert_eq!(plan.reference_time, 30);
    assert_eq!(plan.reference, PoseBracket::Between { prev: 1, elapsed: 10, span: 20 });
    assert_eq!(
        plan.points,
        vec![
            PoseBracket::Between { prev: 0, elapsed: 5, span: 10 },
            PoseBracket::Between { prev: 1, elapsed: 10, span: 20 },
            PoseBracket::At(0),
        ]
    );
}
