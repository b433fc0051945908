use lidar_odometry::config::Config;
use lidar_odometry::point3d::{
    clip_point_cloud_by_distance, clip_point_cloud_by_distance_and_intensity, Point3d,
};

fn p(x: i32, y: i32, z: i32, intensity: i32) -> Point3d {
    Point3d::new_with_timestamp(x, y, z, intensity, 0)
}

#[test]
fn square_is_squared_norm() {
    assert_eq!(p(3, 4, 12, 0).square(), 169);
    assert_eq!(p(i32::MIN, i32::MIN, i32::MIN, 0).square(), 3 * (1u64 << 62));
}

#[test]
fn new_keeps_coordinates_and_stamps_now() {
    let q = Point3d::new(1, -2, 3, 7);
    assert_eq!((q.x, q.y, q.z, q.intensity), (1, -2, 3, 7));
    assert!(q.timestamp > 0);
}

#[test]
fn age_in_whole_seconds() {
    let q = Point3d::new_with_timestamp(0, 0, 0, 0, 1_000_000);
    assert_eq!(q.age_seconds(3_500_000), 2);
    assert_eq!(q.age_seconds(500_000), 0);
}

#[test]
fn clip_by_distance_keeps_closed_band() {
    let cloud = vec![p(0, 0, 0, 1), p(1, 0, 0, 1), p(3, 4, 0, 1), p(6, 0, 0, 1), p(0, 0, 5, 1)];
    let out = clip_point_cloud_by_distance(&cloud, 1, 5);
    assert_eq!(out, vec![p(1, 0, 0, 1), p(3, 4, 0, 1), p(0, 0, 5, 1)]);
    assert!(clip_point_cloud_by_distance(&vec![], 1, 5).is_empty());
}

#[test]
fn clip_by_distance_and_intensity() {
    let cloud = vec![p(1, 0, 0, 10), p(2, 0, 0, 4), p(9, 0, 0, 50), p(3, 0, 0, 5)];
    let out = clip_point_cloud_by_distance_and_intensity(&cloud, 1, 5, 5);
    assert_eq!(out, vec![p(1, 0, 0, 10), p(3, 0, 0, 5)]);
}

#[test]
fn config_defaults() {
    let c = Config::default_values();
    assert_eq!(c.voxel_size, 1000);
    assert_eq!(c.max_range, 100000);
    assert_eq!(c.min_range, 1000);
    assert_eq!(c.max_points_per_voxel, 20);
    assert_eq!(c.max_num_iterations, 500);
    assert_eq!(c.max_point_age_seconds, Some(30));
    assert!(!c.deskew);
}
