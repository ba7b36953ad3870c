//! The fixed track that tokens follow: points one path unit apart, each with
//! a flag telling whether it lies inside a tunnel.

use vstd::prelude::*;
use crate::geometry::{Point, SCALE};

verus! {

/// Points of the track, one path unit apart, and the tunnel flag of each.
#[derive(Clone, Debug)]
pub struct Curve {
    /// Identity of the source the points were last loaded from.
    pub last_loaded: String,
    pub points: Vec<Point>,
    pub is_tunnel: Vec<bool>,
}

/// Index of the point at arc-length `dist`: the distance is truncated to
/// whole path units and clamped into `0..=last`.
pub open spec fn clamped_index(dist: int, last: int) -> int {
    if dist < 0 {
        0
    } else if dist / (SCALE as int) > last {
        last
    } else {
        dist / (SCALE as int)
    }
}

fn index_at(dist: i64, last: usize) -> (r: usize)
    ensures
        r == clamped_index(dist as int, last as int),
{
    if dist < 0 {
        0
    } else {
        let units: i64 = dist / SCALE;
        if units as u64 > last as u64 {
            last
        } else {
            units as usize
        }
    }
}

impl Curve {
    /// One tunnel flag per point, and every point a valid position.
    pub open spec fn wf(&self) -> bool {
        &&& self.points@.len() == self.is_tunnel@.len()
        &&& forall|i: int| 0 <= i < self.points@.len() ==> (#[trigger] self.points@[i]).in_bounds()
    }

    pub open spec fn spec_pos_at(&self, dist: int) -> Point {
        self.points@[clamped_index(dist, self.points@.len() - 1)]
    }

    pub open spec fn spec_tunnel_at(&self, dist: int) -> bool {
        self.is_tunnel@[clamped_index(dist, self.points@.len() - 1)]
    }

    /// The delta between the two consecutive points at `dist`, turned by a
    /// quarter turn.
    pub open spec fn spec_normal_at(&self, dist: int) -> Point {
        let i = clamped_index(dist, self.points@.len() - 2);
        Point {
            x: (self.points@[i + 1].y - self.points@[i].y) as i64,
            y: (self.points@[i].x - self.points@[i + 1].x) as i64,
        }
    }

    pub fn new() -> (r: Curve)
        ensures
            r.wf(),
            r.last_loaded@ == Seq::<char>::empty(),
            r.points@.len() == 0,
    {
        Curve { last_loaded: String::new(), points: Vec::new(), is_tunnel: Vec::new() }
    }

    /// Whether the points were loaded from `source` last.
    pub fn is_loaded_from(&self, source: &String) -> (r: bool)
        ensures
            r == (self.last_loaded@ == source@),
    {
        self.last_loaded == *source
    }

    /// The point at the given arc-length distance (truncated, clamped).
    pub fn get_pos_at_dist(&self, dist: i64) -> (r: Point)
        requires
            self.wf(),
            self.points@.len() >= 1,
        ensures
            r == self.spec_pos_at(dist as int),
            r.in_bounds(),
    {
        let i = index_at(dist, self.points.len() - 1);
        self.points[i]
    }

    /// Whether the path position at the given distance is inside a tunnel.
    pub fn get_tunnel_at_dist(&self, dist: i64) -> (r: bool)
        requires
            self.wf(),
            self.points@.len() >= 1,
        ensures
            r == self.spec_tunnel_at(dist as int),
    {
        let i = index_at(dist, self.points.len() - 1);
        self.is_tunnel[i]
    }

    /// A vector perpendicular to the path direction at the given distance.
    pub fn get_normal_at_dist(&self, dist: i64) -> (r: Point)
        requires
            self.wf(),
            self.points@.len() >= 2,
        ensures
            r == self.spec_normal_at(dist as int),
            r.is_small(),
    {
        let i = index_at(dist, self.points.len() - 2);
        let a = self.points[i];
        let b = self.points[i + 1];
        Point { x: b.y - a.y, y: a.x - b.x }
    }
}

} // verus!
