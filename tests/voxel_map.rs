use lidar_odometry::point3d::Point3d;
use lidar_odometry::voxel_hash_map::{point_to_voxel, Position, Voxel, VoxelHashMap};

const T0: u64 = 1_000_000_000;

fn pt(x: i32, y: i32, z: i32) -> Point3d {
    Point3d::new_with_timestamp(x, y, z, 0, T0)
}

fn origin() -> Position {
    Position { x: 0, y: 0, z: 0 }
}

fn small_map(max_points_per_voxel: usize) -> VoxelHashMap {
    let mut map = VoxelHashMap::default_values();
    map.max_points_per_voxel = max_points_per_voxel;
    map.max_point_age_seconds = None;
    map
}

#[test]
fn default_map_is_empty() {
    let map = VoxelHashMap::default_values();
    assert!(map.is_empty());
    assert_eq!(map.map_len(), 0);
    assert_eq!(map.voxel_size, 1000);
    assert_eq!(map.max_distance, 100000);
    assert_eq!(map.max_points_per_voxel, 20);
    assert_eq!(map.max_point_age_seconds, Some(30));
    assert_eq!(map.get_oldest_point_age(T0), None);
    assert!(map.get_closest_neighbor(&pt(0, 0, 0)).is_none());
}

#[test]
fn voxel_keys_floor_negative_coordinates() {
    assert_eq!(point_to_voxel(&pt(1500, -1, -1000), 1000), Voxel { x: 1, y: -1, z: -1 });
    assert_eq!(point_to_voxel(&pt(999, -1001, 0), 1000), Voxel { x: 0, y: -2, z: 0 });
}

#[test]
fn same_point_twice_is_stored_once() {
    let mut map = small_map(20);
    let p = pt(1000, 0, 0);
    map.update(&vec![p, p], &origin(), T0);
    assert_eq!(map.map_len(), 1);
    assert_eq!(map.map.len(), 1);
    assert_eq!(map.last_batch_points, vec![p]);
    map.update(&vec![p], &origin(), T0);
    assert_eq!(map.map_len(), 1);
    assert!(map.last_batch_points.is_empty());
}

#[test]
fn points_closer_than_resolution_are_dropped() {
    // resolution² = 1000² / 4: points 400 apart are too close, 600 apart are not
    let mut map = small_map(4);
    map.update(&vec![pt(100, 100, 100), pt(500, 100, 100), pt(700, 100, 100)], &origin(), T0);
    assert_eq!(map.map_len(), 2);
    assert_eq!(map.last_batch_points, vec![pt(100, 100, 100), pt(700, 100, 100)]);
}

#[test]
fn cell_capacity_is_respected() {
    let mut map = small_map(2);
    // resolution² = 1000² / 2 = 500000: 800 apart is far enough
    let pts = vec![pt(0, 0, 0), pt(800, 0, 0), pt(0, 800, 0), pt(800, 800, 0)];
    map.update(&pts, &origin(), T0);
    assert_eq!(map.map.len(), 1);
    assert_eq!(map.map_len(), 2);
    for cell in map.map.iter() {
        assert!(cell.points.len() <= 2);
    }
}

#[test]
fn far_cells_are_evicted() {
    let mut map = small_map(20);
    map.max_distance = 10000;
    map.update(&vec![pt(1000, 0, 0), pt(20000, 0, 0), pt(10000, 0, 0)], &origin(), T0);
    assert_eq!(map.flatten(), vec![pt(1000, 0, 0)]);
    // moving the origin away evicts the remaining cell
    map.update(&vec![], &Position { x: 30000, y: 0, z: 0 }, T0);
    assert!(map.is_empty());
}

#[test]
fn aged_points_are_evicted_on_update() {
    let mut map = VoxelHashMap::default_values();
    map.max_point_age_seconds = Some(1);
    map.update(&vec![pt(1000, 0, 0)], &origin(), T0);
    assert_eq!(map.map_len(), 1);
    map.update(&vec![], &origin(), T0 + 500_000);
    assert_eq!(map.map_len(), 1);
    map.update(&vec![], &origin(), T0 + 1_500_000);
    assert!(map.is_empty());
    assert_eq!(map.map_len(), 0);
}

#[test]
fn age_queries() {
    let mut map = small_map(20);
    let old = Point3d::new_with_timestamp(0, 0, 0, 0, T0);
    let young = Point3d::new_with_timestamp(5000, 0, 0, 0, T0 + 2_000_000);
    map.update(&vec![old, young], &origin(), T0);
    let now = T0 + 3_000_000;
    assert_eq!(map.get_oldest_point_age(now), Some(3_000_000));
    assert_eq!(map.get_point_count_by_age(1, now), 1);
    assert_eq!(map.get_point_count_by_age(3, now), 2);
    assert_eq!(map.get_point_count_by_age(0, now), 0);
}

#[test]
fn closest_neighbor_searches_adjacent_voxels() {
    let mut map = small_map(20);
    map.update(&vec![pt(100, 100, 100), pt(1500, 100, 100), pt(5000, 5000, 5000)], &origin(), T0);
    let (p, d2) = map.get_closest_neighbor(&pt(1200, 100, 100)).unwrap();
    assert_eq!(p, pt(1500, 100, 100));
    assert_eq!(d2, 90000);
    // only the far point is stored around this query's block, two voxels away
    assert!(map.get_closest_neighbor(&pt(3100, 3100, 3100)).is_none());
    let (p, d2) = map.get_closest_neighbor(&pt(5000, 5000, 4000)).unwrap();
    assert_eq!(p, pt(5000, 5000, 5000));
    assert_eq!(d2, 1_000_000);
}

#[test]
fn adjacent_voxels_form_the_block() {
    let center = Voxel { x: 2, y: -3, z: 0 };
    let block = lidar_odometry::voxel_hash_map::get_adjacent_voxels(&center);
    assert_eq!(block.len(), 27);
    for dx in -1..=1i64 {
        for dy in -1..=1i64 {
            for dz in -1..=1i64 {
                assert!(block.contains(&Voxel { x: 2 + dx, y: -3 + dy, z: dz }));
            }
        }
    }
}
