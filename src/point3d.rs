use vstd::prelude::*;

verus! {

/// A LiDAR return. Coordinates are fixed-point integers in a length unit that
/// the caller picks (millimetres, say); voxel sizes and distances elsewhere in
/// the library use the same unit. `timestamp` is the capture time in
/// microseconds since the Unix epoch.
#[derive(Debug, Clone, Copy, PartialEq, Eq, Structural)]
pub struct Point3d {
    pub x: i32,
    pub y: i32,
    pub z: i32,
    pub intensity: i32,
    pub timestamp: u64,
}

/// Microseconds in one second.
pub const MICROS_PER_SECOND: u64 = 1000000;

/// Squared Euclidean norm of the point's coordinates.
pub open spec fn norm2(p: Point3d) -> int {
    p.x * p.x + p.y * p.y + p.z * p.z
}

/// Age of `p` at time `now`, in microseconds (negative for a future point).
pub open spec fn age_micros(p: Point3d, now: u64) -> int {
    now - p.timestamp
}

/// Whether `p` lies in the closed distance band `[min_distance, max_distance]`.
pub open spec fn within_range(p: Point3d, min_distance: u32, max_distance: u32) -> bool {
    min_distance * min_distance <= norm2(p) <= max_distance * max_distance
}

/// Whether `p` is kept by range and intensity clipping.
pub open spec fn within_range_and_intensity(
    p: Point3d,
    min_distance: u32,
    max_distance: u32,
    min_intensity: i32,
) -> bool {
    within_range(p, min_distance, max_distance) && p.intensity >= min_intensity
}

/// Relies on std::time::SystemTime::now: the wall-clock time in microseconds
/// since the Unix epoch (0 for a clock set before it). Nothing is promised of
/// its value.
#[verifier::external_body]
fn now_micros() -> (r: u64) {
    std::time::SystemTime::now()
        .duration_since(std::time::UNIX_EPOCH)
        .map(|d| d.as_micros() as u64)
        .unwrap_or(0)
}

pub proof fn lemma_square_bound(v: i32)
    ensures
        0 <= v * v <= 0x4000_0000_0000_0000,
{
    assert(0 <= v * v <= 0x4000_0000_0000_0000) by (nonlinear_arith)
        requires
            -0x8000_0000 <= v <= 0x7fff_ffff,
    ;
}

pub proof fn lemma_u32_square_fits(v: u32)
    ensures
        0 <= v * v <= 0xffff_fffe_0000_0001,
{
    assert(0 <= v * v <= 0xffff_fffe_0000_0001) by (nonlinear_arith)
        requires
            0 <= v <= 0xffff_ffff,
    ;
}

impl Point3d {
    /// A point stamped with the current wall-clock time.
    pub fn new(x: i32, y: i32, z: i32, intensity: i32) -> (r: Point3d)
        ensures
            r.x == x,
            r.y == y,
            r.z == z,
            r.intensity == intensity,
    {
        let timestamp = now_micros();
        Point3d { x, y, z, intensity, timestamp }
    }

    pub fn new_with_timestamp(x: i32, y: i32, z: i32, intensity: i32, timestamp: u64) -> (r:
        Point3d)
        ensures
            r == (Point3d { x, y, z, intensity, timestamp }),
    {
        Point3d { x, y, z, intensity, timestamp }
    }

    /// Whole seconds elapsed between the capture time and `now`; zero when
    /// `now` is not later than the capture time.
    pub fn age_seconds(&self, now: u64) -> (r: u64)
        ensures
            now <= self.timestamp ==> r == 0,
            now > self.timestamp ==> r == (now - self.timestamp) / (MICROS_PER_SECOND as int),
    {
        if now <= self.timestamp {
            0
        } else {
            (now - self.timestamp) / MICROS_PER_SECOND
        }
    }

    /// Squared distance from the origin.
    pub fn square(&self) -> (r: u64)
        ensures
            r == norm2(*self),
    {
        proof {
            lemma_square_bound(self.x);
            lemma_square_bound(self.y);
            lemma_square_bound(self.z);
        }
        let x = self.x as i64;
        let y = self.y as i64;
        let z = self.z as i64;
        (x * x) as u64 + (y * y) as u64 + (z * z) as u64
    }
}

/// Keeps, in order, the points whose squared norm lies in
/// `[min_distance², max_distance²]`.
pub fn clip_point_cloud_by_distance(
    point_cloud: &Vec<Point3d>,
    min_distance: u32,
    max_distance: u32,
) -> (r: Vec<Point3d>)
    ensures
        r@ == point_cloud@.filter(|p: Point3d| within_range(p, min_distance, max_distance)),
{
    let ghost keep = |p: Point3d| within_range(p, min_distance, max_distance);
    proof {
        lemma_u32_square_fits(min_distance);
        lemma_u32_square_fits(max_distance);
    }
    let min2 = min_distance as u64 * min_distance as u64;
    let max2 = max_distance as u64 * max_distance as u64;
    let mut out: Vec<Point3d> = Vec::new();
    let mut i: usize = 0;
    while i < point_cloud.len()
        invariant
            i <= point_cloud.len(),
            min2 == min_distance * min_distance,
            max2 == max_distance * max_distance,
            keep == (|p: Point3d| within_range(p, min_distance, max_distance)),
            out@ == point_cloud@.take(i as int).filter(keep),
        decreases point_cloud.len() - i,
    {
        let pt = point_cloud[i];
        let s = pt.square();
        proof {
            assert(point_cloud@.take(i as int + 1) == point_cloud@.take(i as int).push(pt));
            point_cloud@.take(i as int).lemma_filter_push(pt, keep);
            assert(keep(pt) == !(s < min2 || s > max2) );
        }
        if !(s < min2 || s > max2) {
            out.push(pt);
        }
        i = i + 1;
    }
    assert(point_cloud@.take(point_cloud.len() as int) == point_cloud@);
    out
}

/// Keeps, in order, the points whose squared norm lies in
/// `[min_distance², max_distance²]` and whose intensity is at least
/// `min_intensity`.
pub fn clip_point_cloud_by_distance_and_intensity(
    point_cloud: &Vec<Point3d>,
    min_distance: u32,
    max_distance: u32,
    min_intensity: i32,
) -> (r: Vec<Point3d>)
    ensures
        r@ == point_cloud@.filter(
            |p: Point3d| within_range_and_intensity(p, min_distance, max_distance, min_intensity),
        ),
{
    let ghost keep = |p: Point3d|
        within_range_and_intensity(p, min_distance, max_distance, min_intensity);
    proof {
        lemma_u32_square_fits(min_distance);
        lemma_u32_square_fits(max_distance);
    }
    let min2 = min_distance as u64 * min_distance as u64;
    let max2 = max_distance as u64 * max_distance as u64;
    let mut out: Vec<Point3d> = Vec::new();
    let mut i: usize = 0;
    while i < point_cloud.len()
        invariant
            i <= point_cloud.len(),
            min2 == min_distance * min_distance,
            max2 == max_distance * max_distance,
            keep == (|p: Point3d|
                within_range_and_intensity(p, min_distance, max_distance, min_intensity)),
            out@ == point_cloud@.take(i as int).filter(keep),
        decreases point_cloud.len() - i,
    {
        let pt = point_cloud[i];
        let s = pt.square();
        proof {
            assert(point_cloud@.take(i as int + 1) == point_cloud@.take(i as int).push(pt));
            point_cloud@.take(i as int).lemma_filter_push(pt, keep);
            assert(keep(pt) == !(s < min2 || s > max2 || pt.intensity < min_intensity));
        }
        if !(s < min2 || s > max2 || pt.intensity < min_intensity) {
            out.push(pt);
        }
        i = i + 1;
    }
    assert(point_cloud@.take(point_cloud.len() as int) == point_cloud@);
    out
}

} // verus!
