use vstd::prelude::*;
use vstd::arithmetic::div_mod::lemma_fundamental_div_mod;
use vstd::arithmetic::div_mod::lemma_fundamental_div_mod_converse;

use crate::point3d::{age_micros, lemma_u32_square_fits, Point3d, MICROS_PER_SECOND};

verus! {

/// Integer coordinates of a voxel: each point coordinate floor-divided by the
/// voxel size.
#[derive(Debug, Clone, Copy, PartialEq, Eq, Structural)]
pub struct Voxel {
    pub x: i64,
    pub y: i64,
    pub z: i64,
}

/// A position in the map frame, in the same length unit as the points.
#[derive(Debug, Clone, Copy, PartialEq, Eq, Structural)]
pub struct Position {
    pub x: i32,
    pub y: i32,
    pub z: i32,
}

/// The points stored for one voxel, in insertion order.
#[derive(Debug, Clone)]
pub struct VoxelCell {
    pub voxel: Voxel,
    pub points: Vec<Point3d>,
}

/// A bounded voxel map of accumulated points. Cells are kept in a list whose
/// keys are pairwise distinct.
pub struct VoxelHashMap {
    pub voxel_size: u32,
    pub max_distance: u32,
    pub max_points_per_voxel: usize,
    pub map: Vec<VoxelCell>,
    pub last_batch_points: Vec<Point3d>,
    pub max_point_age_seconds: Option<u64>,
}

/// The abstract content of a map: one (key, points) entry per cell.
pub type Cells = Seq<(Voxel, Seq<Point3d>)>;

pub open spec fn voxel_of(p: Point3d, size: int) -> Voxel {
    Voxel {
        x: (p.x as int / size) as i64,
        y: (p.y as int / size) as i64,
        z: (p.z as int / size) as i64,
    }
}

pub open spec fn sq(v: int) -> int {
    v * v
}

pub open spec fn dist2(a: Point3d, b: Point3d) -> int {
    sq(a.x - b.x) + sq(a.y - b.y) + sq(a.z - b.z)
}

pub open spec fn dist2_to(a: Point3d, o: Position) -> int {
    sq(a.x - o.x) + sq(a.y - o.y) + sq(a.z - o.z)
}

/// `a` and `b` are closer than the map resolution `sqrt(size² / cap)`.
pub open spec fn too_close(a: Point3d, b: Point3d, size: int, cap: int) -> bool {
    dist2(a, b) * cap < size * size
}

/// A cell with points `pts` takes `p`: it has room and no point of it is
/// closer to `p` than the resolution.
pub open spec fn accepts(pts: Seq<Point3d>, p: Point3d, size: int, cap: int) -> bool {
    pts.len() < cap && forall|j: int| 0 <= j < pts.len() ==> !too_close(#[trigger] pts[j], p, size, cap)
}

pub open spec fn has_key(cells: Cells, k: Voxel) -> bool {
    exists|i: int| 0 <= i < cells.len() && (#[trigger] cells[i]).0 == k
}

pub open spec fn key_index(cells: Cells, k: Voxel) -> int {
    choose|i: int| 0 <= i < cells.len() && (#[trigger] cells[i]).0 == k
}

/// Whether inserting `p` into `cells` stores it.
pub open spec fn point_accepted(cells: Cells, p: Point3d, size: int, cap: int) -> bool {
    let k = voxel_of(p, size);
    !has_key(cells, k) || accepts(cells[key_index(cells, k)].1, p, size, cap)
}

/// The cells after inserting one point.
pub open spec fn insert_point(cells: Cells, p: Point3d, size: int, cap: int) -> Cells {
    let k = voxel_of(p, size);
    if !has_key(cells, k) {
        cells.push((k, seq![p]))
    } else if point_accepted(cells, p, size, cap) {
        let i = key_index(cells, k);
        cells.update(i, (k, cells[i].1.push(p)))
    } else {
        cells
    }
}

/// The cells after inserting `pts` one after another.
pub open spec fn insert_batch(cells: Cells, pts: Seq<Point3d>, size: int, cap: int) -> Cells
    decreases pts.len(),
{
    if pts.len() == 0 {
        cells
    } else {
        insert_point(insert_batch(cells, pts.drop_last(), size, cap), pts.last(), size, cap)
    }
}

/// The points of `pts` that inserting them one after another stores, in order.
pub open spec fn accepted_batch(cells: Cells, pts: Seq<Point3d>, size: int, cap: int) -> Seq<
    Point3d,
>
    decreases pts.len(),
{
    if pts.len() == 0 {
        Seq::empty()
    } else {
        let before = accepted_batch(cells, pts.drop_last(), size, cap);
        if point_accepted(insert_batch(cells, pts.drop_last(), size, cap), pts.last(), size, cap) {
            before.push(pts.last())
        } else {
            before
        }
    }
}

/// The cells whose representative (first) point lies closer than
/// `max_distance` to `origin`, in their order.
pub open spec fn near_cells(cells: Cells, origin: Position, max_distance: int) -> Cells
    decreases cells.len(),
{
    if cells.len() == 0 {
        cells
    } else {
        let rest = near_cells(cells.drop_last(), origin, max_distance);
        if dist2_to(cells.last().1[0], origin) < max_distance * max_distance {
            rest.push(cells.last())
        } else {
            rest
        }
    }
}

/// `p` is no older than `max_age_seconds` at time `now`.
pub open spec fn fresh(p: Point3d, now: u64, max_age_seconds: u64) -> bool {
    age_micros(p, now) <= max_age_seconds * MICROS_PER_SECOND
}

pub open spec fn fresh_points(pts: Seq<Point3d>, now: u64, max_age_seconds: u64) -> Seq<Point3d> {
    pts.filter(|p: Point3d| fresh(p, now, max_age_seconds))
}

/// Every cell with its stale points removed, and the cells left empty
/// dropped, in their order.
pub open spec fn fresh_cells(cells: Cells, now: u64, max_age_seconds: u64) -> Cells
    decreases cells.len(),
{
    if cells.len() == 0 {
        cells
    } else {
        let rest = fresh_cells(cells.drop_last(), now, max_age_seconds);
        let kept = fresh_points(cells.last().1, now, max_age_seconds);
        if kept.len() > 0 {
            rest.push((cells.last().0, kept))
        } else {
            rest
        }
    }
}

/// The cells after one update cycle: insertion, then distance eviction, then
/// (when an age limit is set) age eviction.
pub open spec fn updated_cells(
    cells: Cells,
    pts: Seq<Point3d>,
    origin: Position,
    size: int,
    cap: int,
    max_distance: int,
    max_age_seconds: Option<u64>,
    now: u64,
) -> Cells {
    let near = near_cells(insert_batch(cells, pts, size, cap), origin, max_distance);
    match max_age_seconds {
        Some(t) => fresh_cells(near, now, t),
        None => near,
    }
}

/// Every point of the cells, cell after cell.
pub open spec fn all_points(cells: Cells) -> Seq<Point3d>
    decreases cells.len(),
{
    if cells.len() == 0 {
        Seq::empty()
    } else {
        all_points(cells.drop_last()) + cells.last().1
    }
}

pub open spec fn cell_view(c: VoxelCell) -> (Voxel, Seq<Point3d>) {
    (c.voxel, c.points@)
}

pub open spec fn view_cells(v: Seq<VoxelCell>) -> Cells {
    v.map_values(|c: VoxelCell| cell_view(c))
}

/// The structural invariant of a map's cells.
pub open spec fn cells_wf(cells: Cells, size: int, cap: int) -> bool {
    &&& forall|i: int, j: int|
        0 <= i < cells.len() && 0 <= j < cells.len() && i != j ==> (#[trigger] cells[i]).0
            != (#[trigger] cells[j]).0
    &&& forall|i: int| 0 <= i < cells.len() ==> cell_wf(#[trigger] cells[i], size, cap)
}

/// One cell is non-empty, within capacity, holds only points of its voxel,
/// and no two of its distinct points are closer than the resolution.
pub open spec fn cell_wf(c: (Voxel, Seq<Point3d>), size: int, cap: int) -> bool {
    &&& 0 < c.1.len() <= cap
    &&& forall|j: int| 0 <= j < c.1.len() ==> voxel_of(#[trigger] c.1[j], size) == c.0
    &&& forall|a: Point3d, b: Point3d|
        c.1.contains(a) && c.1.contains(b) && a != b ==> !#[trigger] too_close(a, b, size, cap)
}

/// `n` capped at the largest `usize`.
pub open spec fn capped(n: int) -> int {
    if n > usize::MAX {
        usize::MAX as int
    } else {
        n
    }
}

/// Voxels `a` and `b` are equal or touch (the 3×3×3 block around `b`).
pub open spec fn adjacent(a: Voxel, b: Voxel) -> bool {
    &&& -1 <= a.x - b.x <= 1
    &&& -1 <= a.y - b.y <= 1
    &&& -1 <= a.z - b.z <= 1
}

/// Point `j` of cell `i` is a neighbour candidate for a query in voxel `q`.
pub open spec fn candidate(cells: Cells, q: Voxel, i: int, j: int) -> bool {
    &&& 0 <= i < cells.len()
    &&& adjacent(cells[i].0, q)
    &&& 0 <= j < cells[i].1.len()
}

/// Relation of the result of a nearest-neighbour search to the cells.
pub open spec fn nearest_result(cells: Cells, query: Point3d, size: int, r: Option<(Point3d, u128)>) -> bool {
    let q = voxel_of(query, size);
    match r {
        None => forall|i: int, j: int| !#[trigger] candidate(cells, q, i, j),
        Some((p, d)) => {
            &&& exists|i: int, j: int| #[trigger] candidate(cells, q, i, j) && cells[i].1[j] == p
            &&& d == dist2(p, query)
            &&& forall|i: int, j: int|
                #[trigger] candidate(cells, q, i, j) ==> d <= dist2(cells[i].1[j], query)
        },
    }
}

/// Once `p` is stored, a point `q` of the same voxel that lies closer to it
/// than the resolution is not.
pub proof fn lemma_near_point_rejected(cells: Cells, p: Point3d, q: Point3d, size: int, cap: int)
    requires
        size > 0,
        cap > 0,
        cells_wf(cells, size, cap),
        voxel_of(q, size) == voxel_of(p, size),
        too_close(p, q, size, cap),
        point_accepted(cells, p, size, cap),
    ensures
        !point_accepted(insert_point(cells, p, size, cap), q, size, cap),
        insert_point(insert_point(cells, p, size, cap), q, size, cap) == insert_point(
            cells,
            p,
            size,
            cap,
        ),
{
    let k = voxel_of(p, size);
    let c1 = insert_point(cells, p, size, cap);
    lemma_insert_point_wf(cells, p, size, cap);
    if !has_key(cells, k) {
        let i = cells.len() as int;
        assert(c1[i].0 == k);
        lemma_key_index(c1, size, cap, i);
        assert(c1[i].1[0] == p);
    } else {
        let i = key_index(cells, k);
        assert(c1[i].0 == k);
        lemma_key_index(c1, size, cap, i);
        let pts = c1[i].1;
        assert(pts[pts.len() - 1] == p);
    }
}

/// Inserting a point and then the same point again, or any point of its
/// voxel closer to it than the resolution, stores at most one of the two.
/// When their voxel had no cell, the map gains exactly one cell, holding
/// just the first point.
pub proof fn lemma_insert_twice(cells: Cells, p: Point3d, q: Point3d, size: int, cap: int)
    requires
        size > 0,
        cap > 0,
        cells_wf(cells, size, cap),
        voxel_of(q, size) == voxel_of(p, size),
        too_close(p, q, size, cap),
    ensures
        accepted_batch(cells, seq![p, q], size, cap).len() <= 1,
        point_accepted(cells, p, size, cap) ==> insert_batch(cells, seq![p, q], size, cap)
            == insert_point(cells, p, size, cap),
        !has_key(cells, voxel_of(p, size)) ==> insert_batch(cells, seq![p, q], size, cap)
            == cells.push((voxel_of(p, size), seq![p])),
{
    assert(seq![p, q].drop_last() =~= seq![p]);
    assert(seq![p].drop_last() =~= Seq::<Point3d>::empty());
    assert(seq![p].last() == p);
    assert(seq![p, q].last() == q);
    assert(insert_batch(cells, Seq::<Point3d>::empty(), size, cap) == cells);
    assert(accepted_batch(cells, Seq::<Point3d>::empty(), size, cap).len() == 0);
    assert(insert_batch(cells, seq![p], size, cap) == insert_point(cells, p, size, cap));
    assert(accepted_batch(cells, seq![p], size, cap).len() <= 1);
    if point_accepted(cells, p, size, cap) {
        lemma_near_point_rejected(cells, p, q, size, cap);
        assert(accepted_batch(cells, seq![p], size, cap).len() == 1);
    } else {
        assert(accepted_batch(cells, seq![p], size, cap).len() == 0);
        assert(insert_point(cells, p, size, cap) == cells);
    }
    assert(insert_batch(cells, seq![p, q], size, cap) == insert_point(
        insert_point(cells, p, size, cap),
        q,
        size,
        cap,
    ));
}

/// Floor division of a coordinate by a positive voxel size.
fn voxel_coord(c: i32, size: u32) -> (r: i64)
    requires
        size > 0,
    ensures
        r as int == (c as int) / (size as int),
{
    if c >= 0 {
        let q = (c as u32) / size;
        q as i64
    } else {
        let m = ((-(c as i64) - 1) as u64) / (size as u64);
        proof {
            let n: int = -(c as int) - 1;
            lemma_fundamental_div_mod(n, size as int);
            let r2 = n % (size as int);
            assert(m as int == n / (size as int));
            assert(n == (size as int) * (m as int) + r2);
            assert(c == (-(m as int) - 1) * size + (size - r2 - 1)) by (nonlinear_arith)
                requires
                    n == (size as int) * (m as int) + r2,
                    n == -(c as int) - 1,
            ;
            lemma_fundamental_div_mod_converse(c as int, size as int, -(m as int) - 1, size - r2 - 1);
        }
        -(m as i64) - 1
    }
}

pub fn point_to_voxel(p: &Point3d, size: u32) -> (r: Voxel)
    requires
        size > 0,
    ensures
        r == voxel_of(*p, size as int),
{
    Voxel { x: voxel_coord(p.x, size), y: voxel_coord(p.y, size), z: voxel_coord(p.z, size) }
}

proof fn lemma_sq_diff_bound(a: i32, b: i32)
    ensures
        0 <= sq(a - b) <= 0x1_0000_0000_0000_0000,
{
    let d: int = a - b;
    assert(0 <= d * d <= 0x1_0000_0000_0000_0000) by (nonlinear_arith)
        requires
            -0xffff_ffff <= d <= 0xffff_ffff,
    ;
}

fn sq_diff(a: i32, b: i32) -> (r: u128)
    ensures
        r == sq(a - b),
        r <= 0x1_0000_0000_0000_0000,
{
    proof {
        lemma_sq_diff_bound(a, b);
    }
    let d = (a as i64) - (b as i64);
    let d = d as i128;
    (d * d) as u128
}

/// Squared distance between two points.
fn distance2(a: &Point3d, b: &Point3d) -> (r: u128)
    ensures
        r == dist2(*a, *b),
        r <= 0x3_0000_0000_0000_0000,
{
    sq_diff(a.x, b.x) + sq_diff(a.y, b.y) + sq_diff(a.z, b.z)
}

/// Squared distance between a point and a position.
fn distance2_to(a: &Point3d, o: &Position) -> (r: u128)
    ensures
        r == dist2_to(*a, *o),
{
    sq_diff(a.x, o.x) + sq_diff(a.y, o.y) + sq_diff(a.z, o.z)
}

/// Whether `a` and `b` are closer than the map resolution.
fn is_too_close(a: &Point3d, b: &Point3d, size: u32, cap: usize) -> (r: bool)
    requires
        cap > 0,
    ensures
        r == too_close(*a, *b, size as int, cap as int),
{
    let d2 = distance2(a, b);
    proof {
        lemma_u32_square_fits(size);
        assert(cap as int <= 0xffff_ffff_ffff_ffff);
    }
    let s2 = (size as u128) * (size as u128);
    if d2 >= s2 {
        assert(d2 * cap >= s2) by (nonlinear_arith)
            requires
                d2 >= s2,
                cap >= 1,
                s2 >= 0,
        ;
        false
    } else {
        assert(d2 * cap <= 0xffff_ffff_ffff_ffff * 0xffff_ffff_ffff_ffff) by (nonlinear_arith)
            requires
                d2 < s2,
                s2 <= 0xffff_ffff * 0xffff_ffff,
                cap <= 0xffff_ffff_ffff_ffff,
        ;
        d2 * (cap as u128) < s2
    }
}

/// Whether a cell holding `pts` takes `p`.
fn cell_accepts(pts: &Vec<Point3d>, p: &Point3d, size: u32, cap: usize) -> (r: bool)
    requires
        cap > 0,
    ensures
        r == accepts(pts@, *p, size as int, cap as int),
{
    if pts.len() >= cap {
        return false;
    }
    let mut j: usize = 0;
    while j < pts.len()
        invariant
            cap > 0,
            j <= pts.len(),
            forall|k: int| 0 <= k < j ==> !too_close(#[trigger] pts@[k], *p, size as int, cap as int),
        decreases pts.len() - j,
    {
        if is_too_close(&pts[j], p, size, cap) {
            return false;
        }
        j = j + 1;
    }
    true
}

proof fn lemma_key_index(cells: Cells, size: int, cap: int, i: int)
    requires
        cells_wf(cells, size, cap),
        0 <= i < cells.len(),
    ensures
        has_key(cells, cells[i].0),
        key_index(cells, cells[i].0) == i,
{
    let k = cells[i].0;
    assert(has_key(cells, k));
    let j = key_index(cells, k);
    if j != i {
        assert(cells[j].0 != cells[i].0);
    }
}

proof fn lemma_too_close_symmetric(a: Point3d, b: Point3d, size: int, cap: int)
    ensures
        too_close(a, b, size, cap) == too_close(b, a, size, cap),
{
    assert(sq(a.x - b.x) == sq(b.x - a.x)) by (nonlinear_arith);
    assert(sq(a.y - b.y) == sq(b.y - a.y)) by (nonlinear_arith);
    assert(sq(a.z - b.z) == sq(b.z - a.z)) by (nonlinear_arith);
}

/// A point is closer than the resolution to itself.
pub proof fn lemma_too_close_self(a: Point3d, size: int, cap: int)
    requires
        size > 0,
    ensures
        too_close(a, a, size, cap),
{
    assert(dist2(a, a) == 0);
    assert(size * size > 0) by (nonlinear_arith)
        requires
            size > 0,
    ;
}

/// Inserting a point keeps the cells well formed.
pub proof fn lemma_insert_point_wf(cells: Cells, p: Point3d, size: int, cap: int)
    requires
        size > 0,
        cap > 0,
        cells_wf(cells, size, cap),
    ensures
        cells_wf(insert_point(cells, p, size, cap), size, cap),
{
    let k = voxel_of(p, size);
    let r = insert_point(cells, p, size, cap);
    if !has_key(cells, k) {
        assert forall|i: int| 0 <= i < r.len() implies cell_wf(#[trigger] r[i], size, cap) by {
            if i == cells.len() {
                let c = r[i];
                assert(c.1 =~= seq![p]);
                assert forall|a: Point3d, b: Point3d|
                    c.1.contains(a) && c.1.contains(b) && a != b implies !#[trigger] too_close(
                        a,
                        b,
                        size,
                        cap,
                    ) by {
                    assert(a == c.1[0]);
                    assert(b == c.1[0]);
                }
            } else {
                assert(r[i] == cells[i]);
            }
        }
        assert forall|i: int, j: int|
            0 <= i < r.len() && 0 <= j < r.len() && i != j implies (#[trigger] r[i]).0 != (
            #[trigger] r[j]).0 by {
            if i == cells.len() {
                assert(cells[j].0 != k);
            } else if j == cells.len() {
                assert(cells[i].0 != k);
            }
        }
    } else if point_accepted(cells, p, size, cap) {
        let ci = key_index(cells, k);
        let old_pts = cells[ci].1;
        let pts = old_pts.push(p);
        assert(cells[ci].0 == k);
        assert(r[ci] == (k, pts));
        assert(accepts(old_pts, p, size, cap));
        assert(cell_wf(cells[ci], size, cap));
        assert forall|a: Point3d, b: Point3d|
            pts.contains(a) && pts.contains(b) && a != b implies !#[trigger] too_close(
                a,
                b,
                size,
                cap,
            ) by {
            let ia = choose|ia: int| 0 <= ia < pts.len() && pts[ia] == a;
            let ib = choose|ib: int| 0 <= ib < pts.len() && pts[ib] == b;
            lemma_too_close_symmetric(a, b, size, cap);
            if ia == old_pts.len() {
                assert(ib < old_pts.len());
                assert(!too_close(old_pts[ib], p, size, cap));
            } else if ib == old_pts.len() {
                assert(!too_close(old_pts[ia], p, size, cap));
            } else {
                assert(old_pts[ia] == a);
                assert(old_pts[ib] == b);
                assert(old_pts.contains(a));
                assert(old_pts.contains(b));
            }
        }
        assert forall|j: int| 0 <= j < pts.len() implies voxel_of(#[trigger] pts[j], size) == k by {
            if j < old_pts.len() {
                assert(voxel_of(old_pts[j], size) == cells[ci].0);
            }
        }
        assert(0 < pts.len() <= cap);
        assert(r[ci].1 == pts);
        assert(forall|j: int| 0 <= j < pts.len() ==> voxel_of(#[trigger] pts[j], size) == k);
        assert(cell_wf((k, pts), size, cap));
        assert(cell_wf(r[ci], size, cap));
        assert forall|i: int| 0 <= i < r.len() implies cell_wf(#[trigger] r[i], size, cap) by {
            if i != ci {
                assert(r[i] == cells[i]);
            }
        }
        assert forall|i: int, j: int|
            0 <= i < r.len() && 0 <= j < r.len() && i != j implies (#[trigger] r[i]).0 != (
            #[trigger] r[j]).0 by {
            assert(cells[i].0 != cells[j].0);
        }
    }
}

/// Whether `p` is no older than `max_age_seconds` at time `now`.
fn is_fresh(p: &Point3d, now: u64, max_age_seconds: u64) -> (r: bool)
    ensures
        r == fresh(*p, now, max_age_seconds),
{
    if now <= p.timestamp {
        true
    } else {
        ((now - p.timestamp) as u128) <= (max_age_seconds as u128) * (MICROS_PER_SECOND as u128)
    }
}

/// The points of `pts` that are no older than `max_age_seconds`, in order.
fn fresh_cell_points(pts: &Vec<Point3d>, now: u64, max_age_seconds: u64) -> (r: Vec<Point3d>)
    ensures
        r@ == fresh_points(pts@, now, max_age_seconds),
{
    let ghost keep = |p: Point3d| fresh(p, now, max_age_seconds);
    let mut out: Vec<Point3d> = Vec::new();
    let mut i: usize = 0;
    while i < pts.len()
        invariant
            i <= pts.len(),
            keep == (|p: Point3d| fresh(p, now, max_age_seconds)),
            out@ == pts@.take(i as int).filter(keep),
        decreases pts.len() - i,
    {
        let pt = pts[i];
        proof {
            assert(pts@.take(i as int + 1) == pts@.take(i as int).push(pt));
            pts@.take(i as int).lemma_filter_push(pt, keep);
        }
        if is_fresh(&pt, now, max_age_seconds) {
            out.push(pt);
        }
        i = i + 1;
    }
    assert(pts@.take(pts.len() as int) == pts@);
    out
}

/// A cell keeps its invariant when stale points are dropped from it, as long
/// as one is left.
proof fn lemma_fresh_cell_wf(c: (Voxel, Seq<Point3d>), now: u64, t: u64, size: int, cap: int)
    requires
        cell_wf(c, size, cap),
        fresh_points(c.1, now, t).len() > 0,
    ensures
        cell_wf((c.0, fresh_points(c.1, now, t)), size, cap),
{
    let pred = |p: Point3d| fresh(p, now, t);
    let f = fresh_points(c.1, now, t);
    c.1.lemma_filter_len(pred);
    assert forall|j: int| 0 <= j < f.len() implies voxel_of(#[trigger] f[j], size) == c.0 by {
        assert(f.contains(f[j]));
        c.1.lemma_filter_contains_rev(pred, f[j]);
    }
    assert forall|a: Point3d, b: Point3d|
        f.contains(a) && f.contains(b) && a != b implies !#[trigger] too_close(a, b, size, cap) by {
        c.1.lemma_filter_contains_rev(pred, a);
        c.1.lemma_filter_contains_rev(pred, b);
    }
}

/// Distance eviction leaves no cell whose representative point lies at
/// `max_distance` or farther from the origin.
pub proof fn lemma_near_cells_within(cells: Cells, origin: Position, max_distance: int)
    ensures
        forall|i: int|
            0 <= i < near_cells(cells, origin, max_distance).len() ==> dist2_to(
                (#[trigger] near_cells(cells, origin, max_distance)[i]).1[0],
                origin,
            ) < max_distance * max_distance,
    decreases cells.len(),
{
    if cells.len() > 0 {
        lemma_near_cells_within(cells.drop_last(), origin, max_distance);
        let rest = near_cells(cells.drop_last(), origin, max_distance);
        let r = near_cells(cells, origin, max_distance);
        assert forall|i: int| 0 <= i < r.len() implies dist2_to((#[trigger] r[i]).1[0], origin)
            < max_distance * max_distance by {
            if i < rest.len() {
                assert(r[i] == rest[i]);
            }
        }
    }
}

/// Age eviction leaves only points no older than the limit.
pub proof fn lemma_fresh_cells_fresh(cells: Cells, now: u64, max_age_seconds: u64)
    ensures
        forall|i: int, j: int|
            0 <= i < fresh_cells(cells, now, max_age_seconds).len() && 0 <= j < fresh_cells(
                cells,
                now,
                max_age_seconds,
            )[i].1.len() ==> fresh(
                #[trigger] fresh_cells(cells, now, max_age_seconds)[i].1[j],
                now,
                max_age_seconds,
            ),
    decreases cells.len(),
{
    if cells.len() > 0 {
        lemma_fresh_cells_fresh(cells.drop_last(), now, max_age_seconds);
        let pred = |p: Point3d| fresh(p, now, max_age_seconds);
        let f = fresh_points(cells.last().1, now, max_age_seconds);
        assert forall|j: int| 0 <= j < f.len() implies fresh(#[trigger] f[j], now, max_age_seconds) by {
            cells.last().1.lemma_filter_pred(pred, j);
        }
        let rest = fresh_cells(cells.drop_last(), now, max_age_seconds);
        let r = fresh_cells(cells, now, max_age_seconds);
        assert forall|i: int, j: int| 0 <= i < r.len() && 0 <= j < r[i].1.len() implies fresh(
            #[trigger] r[i].1[j],
            now,
            max_age_seconds,
        ) by {
            if i < rest.len() {
                assert(r[i] == rest[i]);
            } else {
                assert(r[i].1 == f);
            }
        }
    }
}

/// The voxel and its 26 neighbours (the 3×3×3 block around it).
pub fn get_adjacent_voxels(voxel: &Voxel) -> (r: Vec<Voxel>)
    requires
        i64::MIN < voxel.x < i64::MAX,
        i64::MIN < voxel.y < i64::MAX,
        i64::MIN < voxel.z < i64::MAX,
    ensures
        r@.len() == 27,
        forall|i: int| 0 <= i < r@.len() ==> adjacent(#[trigger] r@[i], *voxel),
        forall|v: Voxel| adjacent(v, *voxel) ==> r@.contains(v),
{
    broadcast use vstd::seq_lib::group_seq_properties;

    let mut out: Vec<Voxel> = Vec::new();
    let mut dx: i64 = -1;
    while dx <= 1
        invariant
            -1 <= dx <= 2,
            out@.len() == 9 * (dx + 1),
            i64::MIN < voxel.x < i64::MAX,
            i64::MIN < voxel.y < i64::MAX,
            i64::MIN < voxel.z < i64::MAX,
            forall|i: int| 0 <= i < out@.len() ==> adjacent(#[trigger] out@[i], *voxel),
            forall|v: Voxel| adjacent(v, *voxel) && v.x - voxel.x < dx ==> out@.contains(v),
        decreases 2 - dx,
    {
        let mut dy: i64 = -1;
        while dy <= 1
            invariant
                -1 <= dx <= 1,
                -1 <= dy <= 2,
                out@.len() == 9 * (dx + 1) + 3 * (dy + 1),
                i64::MIN < voxel.x < i64::MAX,
                i64::MIN < voxel.y < i64::MAX,
                i64::MIN < voxel.z < i64::MAX,
                forall|i: int| 0 <= i < out@.len() ==> adjacent(#[trigger] out@[i], *voxel),
                forall|v: Voxel|
                    adjacent(v, *voxel) && (v.x - voxel.x < dx || (v.x - voxel.x == dx && v.y
                        - voxel.y < dy)) ==> out@.contains(v),
            decreases 2 - dy,
        {
            let mut dz: i64 = -1;
            while dz <= 1
                invariant
                    -1 <= dx <= 1,
                    -1 <= dy <= 1,
                    -1 <= dz <= 2,
                    out@.len() == 9 * (dx + 1) + 3 * (dy + 1) + (dz + 1),
                    i64::MIN < voxel.x < i64::MAX,
                    i64::MIN < voxel.y < i64::MAX,
                    i64::MIN < voxel.z < i64::MAX,
                    forall|i: int| 0 <= i < out@.len() ==> adjacent(#[trigger] out@[i], *voxel),
                    forall|v: Voxel|
                        adjacent(v, *voxel) && (v.x - voxel.x < dx || (v.x - voxel.x == dx && (v.y
                            - voxel.y < dy || (v.y - voxel.y == dy && v.z - voxel.z < dz))))
                            ==> out@.contains(v),
                decreases 2 - dz,
            {
                let v = Voxel { x: voxel.x + dx, y: voxel.y + dy, z: voxel.z + dz };
                let ghost before = out@;
                out.push(v);
                proof {
                    assert(out@[out@.len() - 1] == v);
                    assert forall|w: Voxel|
                        adjacent(w, *voxel) && (w.x - voxel.x < dx || (w.x - voxel.x == dx && (w.y
                            - voxel.y < dy || (w.y - voxel.y == dy && w.z - voxel.z < dz + 1))))
                            implies out@.contains(w) by {
                        if w == v {
                            assert(out@[out@.len() - 1] == w);
                        } else {
                            assert(before.contains(w));
                            let k = choose|k: int| 0 <= k < before.len() && before[k] == w;
                            assert(out@[k] == w);
                        }
                    }
                }
                dz = dz + 1;
            }
            dy = dy + 1;
        }
        dx = dx + 1;
    }
    out
}

fn is_adjacent(a: &Voxel, b: &Voxel) -> (r: bool)
    ensures
        r == adjacent(*a, *b),
{
    let dx = (a.x as i128) - (b.x as i128);
    let dy = (a.y as i128) - (b.y as i128);
    let dz = (a.z as i128) - (b.z as i128);
    -1 <= dx && dx <= 1 && -1 <= dy && dy <= 1 && -1 <= dz && dz <= 1
}

impl VoxelHashMap {
    /// The map's cells as (key, points) entries.
    pub open spec fn cells(&self) -> Cells {
        view_cells(self.map@)
    }

    pub open spec fn size(&self) -> int {
        self.voxel_size as int
    }

    pub open spec fn cap(&self) -> int {
        self.max_points_per_voxel as int
    }

    /// The map's invariant: a positive voxel size and capacity, and
    /// well-formed cells.
    pub open spec fn wf(&self) -> bool {
        &&& self.voxel_size > 0
        &&& self.max_points_per_voxel > 0
        &&& cells_wf(self.cells(), self.size(), self.cap())
    }

    /// Index of the cell with key `k`, if there is one.
    fn find_cell(&self, k: &Voxel) -> (r: Option<usize>)
        requires
            self.wf(),
        ensures
            r is None ==> !has_key(self.cells(), *k),
            r matches Some(i) ==> i < self.map.len() && key_index(self.cells(), *k) == i
                && has_key(self.cells(), *k),
    {
        let mut i: usize = 0;
        while i < self.map.len()
            invariant
                self.wf(),
                i <= self.map.len(),
                forall|j: int| 0 <= j < i ==> (#[trigger] self.cells()[j]).0 != *k,
            decreases self.map.len() - i,
        {
            if self.map[i].voxel == *k {
                proof {
                    lemma_key_index(self.cells(), self.size(), self.cap(), i as int);
                }
                return Some(i);
            }
            i = i + 1;
        }
        None
    }

    /// Inserts one point, and reports whether it was stored.
    fn add_point(&mut self, pt: Point3d) -> (r: bool)
        requires
            old(self).wf(),
        ensures
            final(self).wf(),
            final(self).cells() == insert_point(old(self).cells(), pt, old(self).size(), old(self).cap()),
            r == point_accepted(old(self).cells(), pt, old(self).size(), old(self).cap()),
            final(self).voxel_size == old(self).voxel_size,
            final(self).max_distance == old(self).max_distance,
            final(self).max_points_per_voxel == old(self).max_points_per_voxel,
            final(self).max_point_age_seconds == old(self).max_point_age_seconds,
            final(self).last_batch_points == old(self).last_batch_points,
    {
        let ghost cells = self.cells();
        proof {
            lemma_insert_point_wf(cells, pt, self.size(), self.cap());
        }
        let voxel = point_to_voxel(&pt, self.voxel_size);
        match self.find_cell(&voxel) {
            Some(ci) => {
                if cell_accepts(&self.map[ci].points, &pt, self.voxel_size, self.max_points_per_voxel) {
                    let mut cell = VoxelCell { voxel, points: Vec::new() };
                    self.map.set_and_swap(ci, &mut cell);
                    cell.points.push(pt);
                    self.map.set(ci, cell);
                    assert(self.cells() =~= insert_point(cells, pt, self.size(), self.cap()));
                    true
                } else {
                    false
                }
            },
            None => {
                let mut points: Vec<Point3d> = Vec::new();
                points.push(pt);
                self.map.push(VoxelCell { voxel, points });
                assert(self.cells() =~= insert_point(cells, pt, self.size(), self.cap()));
                true
            },
        }
    }

    /// Inserts `points` one after another, and records the stored ones as the
    /// last batch.
    fn add_points(&mut self, points: &Vec<Point3d>)
        requires
            old(self).wf(),
        ensures
            final(self).wf(),
            final(self).cells() == insert_batch(old(self).cells(), points@, old(self).size(), old(self).cap()),
            final(self).last_batch_points@ == accepted_batch(
                old(self).cells(),
                points@,
                old(self).size(),
                old(self).cap(),
            ),
            final(self).voxel_size == old(self).voxel_size,
            final(self).max_distance == old(self).max_distance,
            final(self).max_points_per_voxel == old(self).max_points_per_voxel,
            final(self).max_point_age_seconds == old(self).max_point_age_seconds,
    {
        let ghost cells0 = self.cells();
        let mut last_batch: Vec<Point3d> = Vec::new();
        let mut i: usize = 0;
        while i < points.len()
            invariant
                self.wf(),
                i <= points.len(),
                self.voxel_size == old(self).voxel_size,
                self.max_distance == old(self).max_distance,
                self.max_points_per_voxel == old(self).max_points_per_voxel,
                self.max_point_age_seconds == old(self).max_point_age_seconds,
                cells0 == old(self).cells(),
                self.cells() == insert_batch(cells0, points@.take(i as int), self.size(), self.cap()),
                last_batch@ == accepted_batch(cells0, points@.take(i as int), self.size(), self.cap()),
            decreases points.len() - i,
        {
            let pt = points[i];
            proof {
                assert(points@.take(i as int + 1).drop_last() == points@.take(i as int));
                assert(points@.take(i as int + 1).last() == pt);
            }
            if self.add_point(pt) {
                last_batch.push(pt);
            }
            i = i + 1;
        }
        assert(points@.take(points.len() as int) == points@);
        self.last_batch_points = last_batch;
    }

    /// Drops every cell whose representative point lies at `max_distance`
    /// or farther from `current_origin`.
    fn remove_points_too_far(&mut self, current_origin: &Position)
        requires
            old(self).wf(),
        ensures
            final(self).wf(),
            final(self).cells() == near_cells(
                old(self).cells(),
                *current_origin,
                old(self).max_distance as int,
            ),
            final(self).voxel_size == old(self).voxel_size,
            final(self).max_distance == old(self).max_distance,
            final(self).max_points_per_voxel == old(self).max_points_per_voxel,
            final(self).max_point_age_seconds == old(self).max_point_age_seconds,
            final(self).last_batch_points == old(self).last_batch_points,
    {
        let ghost orig = self.cells();
        let ghost size = self.size();
        let ghost cap = self.cap();
        proof {
            lemma_u32_square_fits(self.max_distance);
        }
        let max2 = (self.max_distance as u128) * (self.max_distance as u128);
        let mut kept: Vec<VoxelCell> = Vec::new();
        let n = self.map.len();
        let mut i: usize = 0;
        while i < n
            invariant
                self.voxel_size == old(self).voxel_size,
                self.max_distance == old(self).max_distance,
                self.max_points_per_voxel == old(self).max_points_per_voxel,
                self.max_point_age_seconds == old(self).max_point_age_seconds,
                self.last_batch_points == old(self).last_batch_points,
                size == self.size(),
                cap == self.cap(),
                size > 0,
                cap > 0,
                orig == old(self).cells(),
                cells_wf(orig, size, cap),
                max2 == self.max_distance * self.max_distance,
                n == orig.len(),
                self.map.len() == n,
                i <= n,
                forall|j: int| i <= j < n ==> cell_view(#[trigger] self.map@[j]) == orig[j],
                view_cells(kept@) == near_cells(
                    orig.take(i as int),
                    *current_origin,
                    self.max_distance as int,
                ),
                cells_wf(view_cells(kept@), size, cap),
                forall|j: int|
                    0 <= j < kept.len() ==> has_key(
                        orig.take(i as int),
                        (#[trigger] view_cells(kept@)[j]).0,
                    ),
            decreases n - i,
        {
            let mut cell = VoxelCell { voxel: Voxel { x: 0, y: 0, z: 0 }, points: Vec::new() };
            self.map.set_and_swap(i, &mut cell);
            proof {
                assert(cell_view(cell) == orig[i as int]);
                assert(cell_wf(orig[i as int], size, cap));
                assert(orig.take(i as int + 1).drop_last() == orig.take(i as int));
                assert(orig.take(i as int + 1).last() == orig[i as int]);
            }
            let d2 = distance2_to(&cell.points[0], current_origin);
            if d2 < max2 {
                let ghost before = view_cells(kept@);
                kept.push(cell);
                proof {
                    let after = view_cells(kept@);
                    assert(after =~= before.push(cell_view(cell)));
                    assert forall|a: int, b: int|
                        0 <= a < after.len() && 0 <= b < after.len() && a != b implies (
                        #[trigger] after[a]).0 != (#[trigger] after[b]).0 by {
                        if a == before.len() {
                            assert(has_key(orig.take(i as int), before[b].0));
                            let m = choose|m: int|
                                0 <= m < i && (#[trigger] orig.take(i as int)[m]).0 == before[b].0;
                            assert(orig[m].0 != orig[i as int].0);
                        } else if b == before.len() {
                            assert(has_key(orig.take(i as int), before[a].0));
                            let m = choose|m: int|
                                0 <= m < i && (#[trigger] orig.take(i as int)[m]).0 == before[a].0;
                            assert(orig[m].0 != orig[i as int].0);
                        }
                    }
                    assert forall|j: int| 0 <= j < after.len() implies has_key(
                        orig.take(i as int + 1),
                        (#[trigger] after[j]).0,
                    ) by {
                        if j == before.len() {
                            assert(orig.take(i as int + 1)[i as int] == orig[i as int]);
                        } else {
                            assert(has_key(orig.take(i as int), before[j].0));
                            let m = choose|m: int|
                                0 <= m < i && (#[trigger] orig.take(i as int)[m]).0 == before[j].0;
                            assert(orig.take(i as int + 1)[m] == orig[m]);
                        }
                    }
                }
            } else {
                proof {
                    let after = view_cells(kept@);
                    assert forall|j: int| 0 <= j < after.len() implies has_key(
                        orig.take(i as int + 1),
                        (#[trigger] after[j]).0,
                    ) by {
                        assert(has_key(orig.take(i as int), after[j].0));
                        let m = choose|m: int|
                            0 <= m < i && (#[trigger] orig.take(i as int)[m]).0 == after[j].0;
                        assert(orig.take(i as int + 1)[m] == orig[m]);
                    }
                }
            }
            i = i + 1;
        }
        assert(orig.take(n as int) == orig);
        self.map = kept;
    }

    /// Drops from every cell the points older than `max_age_seconds` at
    /// time `now`, and the cells left empty.
    fn remove_aged_points(&mut self, now: u64, max_age_seconds: u64)
        requires
            old(self).wf(),
        ensures
            final(self).wf(),
            final(self).cells() == fresh_cells(old(self).cells(), now, max_age_seconds),
            final(self).voxel_size == old(self).voxel_size,
            final(self).max_distance == old(self).max_distance,
            final(self).max_points_per_voxel == old(self).max_points_per_voxel,
            final(self).max_point_age_seconds == old(self).max_point_age_seconds,
            final(self).last_batch_points == old(self).last_batch_points,
    {
        let ghost orig = self.cells();
        let ghost size = self.size();
        let ghost cap = self.cap();
        let mut kept: Vec<VoxelCell> = Vec::new();
        let n = self.map.len();
        let mut i: usize = 0;
        while i < n
            invariant
                self.voxel_size == old(self).voxel_size,
                self.max_distance == old(self).max_distance,
                self.max_points_per_voxel == old(self).max_points_per_voxel,
                self.max_point_age_seconds == old(self).max_point_age_seconds,
                self.last_batch_points == old(self).last_batch_points,
                size == self.size(),
                cap == self.cap(),
                size > 0,
                cap > 0,
                orig == old(self).cells(),
                cells_wf(orig, size, cap),
                n == orig.len(),
                self.map.len() == n,
                i <= n,
                forall|j: int| i <= j < n ==> cell_view(#[trigger] self.map@[j]) == orig[j],
                view_cells(kept@) == fresh_cells(orig.take(i as int), now, max_age_seconds),
                cells_wf(view_cells(kept@), size, cap),
                forall|j: int|
                    0 <= j < kept.len() ==> has_key(
                        orig.take(i as int),
                        (#[trigger] view_cells(kept@)[j]).0,
                    ),
            decreases n - i,
        {
            let mut cell = VoxelCell { voxel: Voxel { x: 0, y: 0, z: 0 }, points: Vec::new() };
            self.map.set_and_swap(i, &mut cell);
            proof {
                assert(cell_view(cell) == orig[i as int]);
                assert(cell_wf(orig[i as int], size, cap));
                assert(orig.take(i as int + 1).drop_last() == orig.take(i as int));
                assert(orig.take(i as int + 1).last() == orig[i as int]);
            }
            let points = fresh_cell_points(&cell.points, now, max_age_seconds);
            if points.len() > 0 {
                let ghost before = view_cells(kept@);
                proof {
                    lemma_fresh_cell_wf(orig[i as int], now, max_age_seconds, size, cap);
                }
                kept.push(VoxelCell { voxel: cell.voxel, points });
                proof {
                    let after = view_cells(kept@);
                    assert(after =~= before.push((cell.voxel, points@)));
                    assert forall|a: int, b: int|
                        0 <= a < after.len() && 0 <= b < after.len() && a != b implies (
                        #[trigger] after[a]).0 != (#[trigger] after[b]).0 by {
                        if a == before.len() {
                            assert(has_key(orig.take(i as int), before[b].0));
                            let m = choose|m: int|
                                0 <= m < i && (#[trigger] orig.take(i as int)[m]).0 == before[b].0;
                            assert(orig[m].0 != orig[i as int].0);
                        } else if b == before.len() {
                            assert(has_key(orig.take(i as int), before[a].0));
                            let m = choose|m: int|
                                0 <= m < i && (#[trigger] orig.take(i as int)[m]).0 == before[a].0;
                            assert(orig[m].0 != orig[i as int].0);
                        }
                    }
                    assert forall|j: int| 0 <= j < after.len() implies cell_wf(
                        #[trigger] after[j],
                        size,
                        cap,
                    ) by {
                        if j < before.len() {
                            assert(after[j] == before[j]);
                        }
                    }
                    assert forall|j: int| 0 <= j < after.len() implies has_key(
                        orig.take(i as int + 1),
                        (#[trigger] after[j]).0,
                    ) by {
                        if j == before.len() {
                            assert(orig.take(i as int + 1)[i as int] == orig[i as int]);
                        } else {
                            assert(has_key(orig.take(i as int), before[j].0));
                            let m = choose|m: int|
                                0 <= m < i && (#[trigger] orig.take(i as int)[m]).0 == before[j].0;
                            assert(orig.take(i as int + 1)[m] == orig[m]);
                        }
                    }
                }
            } else {
                proof {
                    let after = view_cells(kept@);
                    assert forall|j: int| 0 <= j < after.len() implies has_key(
                        orig.take(i as int + 1),
                        (#[trigger] after[j]).0,
                    ) by {
                        assert(has_key(orig.take(i as int), after[j].0));
                        let m = choose|m: int|
                            0 <= m < i && (#[trigger] orig.take(i as int)[m]).0 == after[j].0;
                        assert(orig.take(i as int + 1)[m] == orig[m]);
                    }
                }
            }
            i = i + 1;
        }
        assert(orig.take(n as int) == orig);
        self.map = kept;
    }

    /// One update cycle at time `now`: inserts the points (already in the map
    /// frame), drops the cells too far from `current_origin`, then, when an
    /// age limit is set, the points older than it.
    pub fn update(&mut self, points: &Vec<Point3d>, current_origin: &Position, now: u64)
        requires
            old(self).wf(),
        ensures
            final(self).wf(),
            final(self).cells() == updated_cells(
                old(self).cells(),
                points@,
                *current_origin,
                old(self).size(),
                old(self).cap(),
                old(self).max_distance as int,
                old(self).max_point_age_seconds,
                now,
            ),
            final(self).last_batch_points@ == accepted_batch(
                old(self).cells(),
                points@,
                old(self).size(),
                old(self).cap(),
            ),
            forall|i: int|
                0 <= i < final(self).cells().len() ==> (#[trigger] final(self).cells()[i]).1.len()
                    <= old(self).max_points_per_voxel,
            old(self).max_point_age_seconds matches Some(t) ==> forall|i: int, j: int|
                0 <= i < final(self).cells().len() && 0 <= j < final(self).cells()[i].1.len()
                    ==> fresh(#[trigger] final(self).cells()[i].1[j], now, t),
            old(self).max_point_age_seconds is None ==> forall|i: int|
                0 <= i < final(self).cells().len() ==> dist2_to(
                    (#[trigger] final(self).cells()[i]).1[0],
                    *current_origin,
                ) < old(self).max_distance * old(self).max_distance,
            final(self).voxel_size == old(self).voxel_size,
            final(self).max_distance == old(self).max_distance,
            final(self).max_points_per_voxel == old(self).max_points_per_voxel,
            final(self).max_point_age_seconds == old(self).max_point_age_seconds,
    {
        self.add_points(points);
        let ghost inserted = self.cells();
        self.remove_points_too_far(current_origin);
        proof {
            lemma_near_cells_within(inserted, *current_origin, self.max_distance as int);
        }
        match self.max_point_age_seconds {
            Some(t) => {
                let ghost near = self.cells();
                self.remove_aged_points(now, t);
                proof {
                    lemma_fresh_cells_fresh(near, now, t);
                }
            },
            None => {},
        }
        proof {
            let c = self.cells();
            assert forall|i: int| 0 <= i < c.len() implies (#[trigger] c[i]).1.len()
                <= self.max_points_per_voxel by {
                assert(cell_wf(c[i], self.size(), self.cap()));
            }
        }
    }

    /// An empty map with a 1000-unit voxel (one metre when points are in
    /// millimetres), a 100000-unit range, 20 points per voxel and a 30 s
    /// age limit.
    pub fn default_values() -> (r: VoxelHashMap)
        ensures
            r.wf(),
            r.cells().len() == 0,
            r.last_batch_points@.len() == 0,
            r.voxel_size == 1000,
            r.max_distance == 100000,
            r.max_points_per_voxel == 20,
            r.max_point_age_seconds == Some(30u64),
    {
        let r = VoxelHashMap {
            voxel_size: 1000,
            max_distance: 100000,
            max_points_per_voxel: 20,
            map: Vec::new(),
            last_batch_points: Vec::new(),
            max_point_age_seconds: Some(30),
        };
        assert(r.cells() =~= Seq::empty());
        r
    }

    pub fn is_empty(&self) -> (r: bool)
        ensures
            r == (self.cells().len() == 0),
    {
        self.map.len() == 0
    }

    /// Number of stored points (capped at `usize::MAX`).
    pub fn map_len(&self) -> (r: usize)
        ensures
            r == capped(all_points(self.cells()).len() as int),
    {
        let ghost cells = self.cells();
        let mut total: usize = 0;
        let mut i: usize = 0;
        while i < self.map.len()
            invariant
                cells == self.cells(),
                i <= self.map.len(),
                total == capped(all_points(cells.take(i as int)).len() as int),
            decreases self.map.len() - i,
        {
            proof {
                assert(cells.take(i as int + 1).drop_last() == cells.take(i as int));
                assert(cells.take(i as int + 1).last() == cells[i as int]);
            }
            total = total.saturating_add(self.map[i].points.len());
            i = i + 1;
        }
        assert(cells.take(self.map.len() as int) == cells);
        total
    }

    /// Every stored point, cell after cell.
    pub fn flatten(&self) -> (r: Vec<Point3d>)
        ensures
            r@ == all_points(self.cells()),
    {
        let ghost cells = self.cells();
        let mut out: Vec<Point3d> = Vec::new();
        let mut i: usize = 0;
        while i < self.map.len()
            invariant
                cells == self.cells(),
                i <= self.map.len(),
                out@ == all_points(cells.take(i as int)),
            decreases self.map.len() - i,
        {
            let pts = &self.map[i].points;
            let ghost start = out@;
            let mut j: usize = 0;
            while j < pts.len()
                invariant
                    j <= pts.len(),
                    out@ == start + pts@.take(j as int),
                decreases pts.len() - j,
            {
                out.push(pts[j]);
                assert(pts@.take(j as int + 1) == pts@.take(j as int).push(pts@[j as int]));
                j = j + 1;
            }
            proof {
                assert(pts@.take(pts.len() as int) == pts@);
                assert(cells.take(i as int + 1).drop_last() == cells.take(i as int));
                assert(cells.take(i as int + 1).last() == cells[i as int]);
            }
            i = i + 1;
        }
        assert(cells.take(self.map.len() as int) == cells);
        out
    }

    /// Number of stored points no older than `max_age_seconds` at time
    /// `now` (capped at `usize::MAX`).
    pub fn get_point_count_by_age(&self, max_age_seconds: u64, now: u64) -> (r: usize)
        ensures
            r == capped(
                all_points(self.cells()).filter(|p: Point3d| fresh(p, now, max_age_seconds)).len() as int,
            ),
    {
        let ghost keep = |p: Point3d| fresh(p, now, max_age_seconds);
        let pts = self.flatten();
        let mut count: usize = 0;
        let mut i: usize = 0;
        while i < pts.len()
            invariant
                i <= pts.len(),
                keep == (|p: Point3d| fresh(p, now, max_age_seconds)),
                count == capped(pts@.take(i as int).filter(keep).len() as int),
            decreases pts.len() - i,
        {
            proof {
                assert(pts@.take(i as int + 1) == pts@.take(i as int).push(pts@[i as int]));
                pts@.take(i as int).lemma_filter_push(pts@[i as int], keep);
            }
            if is_fresh(&pts[i], now, max_age_seconds) {
                count = count.saturating_add(1);
            }
            i = i + 1;
        }
        assert(pts@.take(pts.len() as int) == pts@);
        count
    }

    /// Age in microseconds at time `now` of the oldest stored point, or
    /// `None` for an empty map.
    pub fn get_oldest_point_age(&self, now: u64) -> (r: Option<i128>)
        ensures
            r is None <==> all_points(self.cells()).len() == 0,
            r matches Some(a) ==> (exists|k: int|
                0 <= k < all_points(self.cells()).len() && a == age_micros(
                    #[trigger] all_points(self.cells())[k],
                    now,
                )) && forall|k: int|
                0 <= k < all_points(self.cells()).len() ==> age_micros(
                    #[trigger] all_points(self.cells())[k],
                    now,
                ) <= a,
    {
        let pts = self.flatten();
        if pts.len() == 0 {
            return None;
        }
        let mut oldest: usize = 0;
        let mut i: usize = 1;
        while i < pts.len()
            invariant
                0 < i <= pts.len(),
                oldest < i,
                forall|k: int| 0 <= k < i ==> pts@[oldest as int].timestamp <= (#[trigger] pts@[k]).timestamp,
            decreases pts.len() - i,
        {
            if pts[i].timestamp < pts[oldest].timestamp {
                oldest = i;
            }
            i = i + 1;
        }
        let a = (now as i128) - (pts[oldest].timestamp as i128);
        assert(forall|k: int| 0 <= k < pts.len() ==> age_micros(#[trigger] pts@[k], now) <= a);
        assert(a == age_micros(pts@[oldest as int], now));
        Some(a)
    }

    /// The stored point closest to `point` among the cells of its voxel and
    /// the 26 voxels around it, with its squared distance; `None` when those
    /// cells hold no point.
    pub fn get_closest_neighbor(&self, point: &Point3d) -> (r: Option<(Point3d, u128)>)
        requires
            self.wf(),
        ensures
            nearest_result(self.cells(), *point, self.size(), r),
    {
        let ghost cells = self.cells();
        let q = point_to_voxel(point, self.voxel_size);
        let mut best: Option<(Point3d, u128)> = None;
        let mut i: usize = 0;
        while i < self.map.len()
            invariant
                cells == self.cells(),
                q == voxel_of(*point, self.size()),
                i <= self.map.len(),
                best is None ==> forall|a: int, b: int|
                    0 <= a < i ==> !#[trigger] candidate(cells, q, a, b),
                best matches Some((p, d)) ==> {
                    &&& exists|a: int, b: int|
                        0 <= a < i && #[trigger] candidate(cells, q, a, b) && cells[a].1[b] == p
                    &&& d == dist2(p, *point)
                    &&& forall|a: int, b: int|
                        0 <= a < i && #[trigger] candidate(cells, q, a, b) ==> d <= dist2(
                            cells[a].1[b],
                            *point,
                        )
                },
            decreases self.map.len() - i,
        {
            if is_adjacent(&self.map[i].voxel, &q) {
                let pts = &self.map[i].points;
                let mut j: usize = 0;
                while j < pts.len()
                    invariant
                        cells == self.cells(),
                        q == voxel_of(*point, self.size()),
                        i < self.map.len(),
                        pts@ == cells[i as int].1,
                        adjacent(cells[i as int].0, q),
                        j <= pts.len(),
                        best is None ==> forall|a: int, b: int|
                            (0 <= a < i || (a == i && b < j)) ==> !#[trigger] candidate(cells, q, a, b),
                        best matches Some((p, d)) ==> {
                            &&& exists|a: int, b: int|
                                (0 <= a < i || (a == i && b < j)) && #[trigger] candidate(cells, q, a, b)
                                    && cells[a].1[b] == p
                            &&& d == dist2(p, *point)
                            &&& forall|a: int, b: int|
                                (0 <= a < i || (a == i && b < j)) && #[trigger] candidate(cells, q, a, b)
                                    ==> d <= dist2(cells[a].1[b], *point)
                        },
                    decreases pts.len() - j,
                {
                    let d = distance2(&pts[j], point);
                    assert(candidate(cells, q, i as int, j as int));
                    let better = match best {
                        None => true,
                        Some((_, bd)) => d < bd,
                    };
                    if better {
                        best = Some((pts[j], d));
                    }
                    j = j + 1;
                }
            }
            i = i + 1;
        }
        best
    }
}

} // verus!
