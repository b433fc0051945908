use vstd::prelude::*;

verus! {

/// Tunables of the odometry core. Lengths are in the library's fixed-point
/// length unit (millimetres in the defaults), times in seconds, angles in
/// microradians and the convergence criterion in millionths.
#[derive(Debug, Clone, Copy, PartialEq, Eq, Structural)]
pub struct Config {
    // map
    pub voxel_size: u32,
    pub max_range: u32,
    pub min_range: u32,
    pub max_points_per_voxel: u16,
    // adaptive threshold
    pub min_motion_th: u64,
    pub initial_threshold: u64,
    // registration
    pub max_num_iterations: u16,
    pub convergence_criterion: u64,
    pub max_num_threads: u8,
    // motion compensation
    pub deskew: bool,
    /// `None` disables age-based eviction.
    pub max_point_age_seconds: Option<u64>,
    /// Largest allowed distance between consecutive pose samples for deskew.
    pub max_distance_between_poses: u32,
    /// Largest allowed rotation between consecutive pose samples for deskew.
    pub max_angle_between_poses: u32,
}

impl Config {
    /// A 1 m voxel, a 1 m to 100 m range, 20 points per voxel, a 0.1 m
    /// threshold floor and 2 m seed, 500 iterations with a 1e-4
    /// convergence criterion, all threads, no deskew, a 30 s age limit, and
    /// 5 cm / 10° pose-history bounds.
    pub fn default_values() -> (r: Config)
        ensures
            r == (Config {
                voxel_size: 1000,
                max_range: 100000,
                min_range: 1000,
                max_points_per_voxel: 20,
                min_motion_th: 100,
                initial_threshold: 2000,
                max_num_iterations: 500,
                convergence_criterion: 100,
                max_num_threads: 0,
                deskew: false,
                max_point_age_seconds: Some(30u64),
                max_distance_between_poses: 50,
                max_angle_between_poses: 174533,
            }),
    {
        Config {
            voxel_size: 1000,
            max_range: 100000,
            min_range: 1000,
            max_points_per_voxel: 20,
            min_motion_th: 100,
            initial_threshold: 2000,
            max_num_iterations: 500,
            convergence_criterion: 100,
            max_num_threads: 0,
            deskew: false,
            max_point_age_seconds: Some(30),
            max_distance_between_poses: 50,
            max_angle_between_poses: 174533,
        }
    }
}

} // verus!
