//! Registration core of a LiDAR odometry pipeline, on fixed-point
//! geometry: point clipping, a bounded voxel map with deduplication,
//! per-cell capacity and distance and age eviction, a self-tuning
//! correspondence threshold, and the time bookkeeping of motion
//! compensation.

pub mod adaptive_threshold;
pub mod config;
pub mod deskew;
pub mod point3d;
pub mod voxel_hash_map;
