//! The binary curve resource: a header marked "CURV", a table of absolute
//! points kept only for its size, then a start point followed by one-byte
//! steps, each with its tunnel flag. Numbers are little-endian.

use vstd::prelude::*;
use crate::curve::Curve;
use crate::decode::{fixed_in_range, f32_bits_to_fixed};
use crate::geometry::{Point, MAX_COORD};

verus! {

/// Size of one entry of the absolute point table.
pub const POINT_ENTRY: u64 = 10;

/// Size of one step entry.
pub const STEP_ENTRY: u64 = 4;

/// Offset of the absolute point table.
pub const POINT_TABLE: u64 = 20;

pub open spec fn le_u32(b: Seq<u8>, off: int) -> int {
    b[off] + 256 * b[off + 1] + 65536 * b[off + 2] + 16777216 * b[off + 3]
}

pub open spec fn i8_at(b: Seq<u8>, off: int) -> int {
    if b[off] >= 128 {
        b[off] - 256
    } else {
        b[off] as int
    }
}

/// Offset of the step section: its count, then the start point.
pub open spec fn step_section(b: Seq<u8>) -> int {
    POINT_TABLE + POINT_ENTRY * le_u32(b, 16)
}

/// Offset of the first step entry.
pub open spec fn step_base(b: Seq<u8>) -> int {
    step_section(b) + 14
}

/// Number of points the step section reconstructs: one per step.
pub open spec fn step_count(b: Seq<u8>) -> int {
    le_u32(b, step_section(b)) - 1
}

/// The marker, the header, the point table, the step count (at least one),
/// the start point and every step are present.
pub open spec fn layout_ok(b: Seq<u8>) -> bool {
    &&& b.len() >= POINT_TABLE
    &&& b[0] == 0x43 && b[1] == 0x55 && b[2] == 0x52 && b[3] == 0x56
    &&& step_section(b) + 4 <= b.len()
    &&& le_u32(b, step_section(b)) >= 1
    &&& step_base(b) + STEP_ENTRY * step_count(b) <= b.len()
}

/// Sum of the signed step bytes at `field` (0 for x, 1 for y) of the first
/// `n` steps.
pub open spec fn step_sum(b: Seq<u8>, field: int, n: int) -> int
    decreases n,
{
    if n <= 0 {
        0
    } else {
        step_sum(b, field, n - 1) + i8_at(b, step_base(b) + STEP_ENTRY * (n - 1) + field)
    }
}

/// Coordinate `field` of point `i`: the start plus the first `i + 1` steps.
pub open spec fn point_coord(b: Seq<u8>, start: int, field: int, i: int) -> int {
    start + step_sum(b, field, i + 1)
}

pub open spec fn step_tunnel(b: Seq<u8>, i: int) -> bool {
    b[step_base(b) + STEP_ENTRY * i + 2] != 0
}

/// The points and tunnel flags the resource describes, or `None` when it is
/// malformed, its start point is not a finite number in range, or a point
/// falls outside the range of positions.
pub open spec fn curve_data(b: Seq<u8>) -> Option<(Seq<Point>, Seq<bool>)> {
    if !layout_ok(b) {
        None
    } else {
        let s = step_section(b);
        match (fixed_in_range(le_u32(b, s + 4) as u32), fixed_in_range(le_u32(b, s + 8) as u32)) {
            (Some(sx), Some(sy)) => {
                let n = step_count(b);
                if forall|i: int|
                    0 <= i < n ==> -MAX_COORD <= #[trigger] point_coord(b, sx as int, 0, i) <= MAX_COORD
                        && -MAX_COORD <= point_coord(b, sy as int, 1, i) <= MAX_COORD {
                    Some(
                        (
                            Seq::new(
                                n as nat,
                                |i: int|
                                    Point {
                                        x: point_coord(b, sx as int, 0, i) as i64,
                                        y: point_coord(b, sy as int, 1, i) as i64,
                                    },
                            ),
                            Seq::new(n as nat, |i: int| step_tunnel(b, i)),
                        ),
                    )
                } else {
                    None
                }
            },
            _ => None,
        }
    }
}

fn read_u32(b: &[u8], off: u64) -> (r: u32)
    requires
        off + 4 <= b@.len(),
    ensures
        r == le_u32(b@, off as int),
{
    let o = off as usize;
    (b[o] as u32) + 256 * (b[o + 1] as u32) + 65536 * (b[o + 2] as u32) + 16777216 * (b[o + 3] as u32)
}

fn read_i8(b: &[u8], off: u64) -> (r: i64)
    requires
        off < b@.len(),
    ensures
        r == i8_at(b@, off as int),
{
    let v = b[off as usize];
    if v >= 128 {
        v as i64 - 256
    } else {
        v as i64
    }
}

/// Decodes the curve resource into its points and tunnel flags.
#[verifier::rlimit(40)]
pub fn parse_curve(b: &[u8]) -> (r: Option<(Vec<Point>, Vec<bool>)>)
    ensures
        r is None <==> curve_data(b@) is None,
        r matches Some((p, t)) ==> curve_data(b@) == Some((p@, t@)),
{
    let len = b.len() as u64;
    if len < POINT_TABLE || b[0] != 0x43 || b[1] != 0x55 || b[2] != 0x52 || b[3] != 0x56 {
        return None;
    }
    let section: u64 = POINT_TABLE + POINT_ENTRY * (read_u32(b, 16) as u64);
    if section + 4 > len {
        return None;
    }
    let count = read_u32(b, section);
    if count < 1 {
        return None;
    }
    let n: u64 = count as u64 - 1;
    let base: u64 = section + 14;
    if base + STEP_ENTRY * n > len {
        return None;
    }
    assert(layout_ok(b@));
    let sx = match f32_bits_to_fixed(read_u32(b, section + 4)) {
        Some(v) => v,
        None => return None,
    };
    let sy = match f32_bits_to_fixed(read_u32(b, section + 8)) {
        Some(v) => v,
        None => return None,
    };
    let mut points: Vec<Point> = Vec::new();
    let mut tunnels: Vec<bool> = Vec::new();
    let mut cx: i64 = sx;
    let mut cy: i64 = sy;
    let mut i: u64 = 0;
    while i < n
        invariant
            layout_ok(b@),
            len == b@.len(),
            base == step_base(b@),
            n == step_count(b@),
            base + STEP_ENTRY * n <= len,
            i <= n,
            fixed_in_range(le_u32(b@, step_section(b@) + 4) as u32) == Some(sx),
            fixed_in_range(le_u32(b@, step_section(b@) + 8) as u32) == Some(sy),
            -0x100_0000_0000 <= sx <= 0x100_0000_0000,
            -0x100_0000_0000 <= sy <= 0x100_0000_0000,
            cx == sx + step_sum(b@, 0, i as int),
            cy == sy + step_sum(b@, 1, i as int),
            i > 0 ==> -MAX_COORD <= cx <= MAX_COORD && -MAX_COORD <= cy <= MAX_COORD,
            points@.len() == i,
            tunnels@.len() == i,
            forall|k: int|
                0 <= k < i ==> -MAX_COORD <= #[trigger] point_coord(b@, sx as int, 0, k) <= MAX_COORD
                    && -MAX_COORD <= point_coord(b@, sy as int, 1, k) <= MAX_COORD,
            forall|k: int|
                0 <= k < i ==> #[trigger] points@[k] == (Point {
                    x: point_coord(b@, sx as int, 0, k) as i64,
                    y: point_coord(b@, sy as int, 1, k) as i64,
                }),
            forall|k: int| 0 <= k < i ==> #[trigger] tunnels@[k] == step_tunnel(b@, k),
        decreases n - i,
    {
        let off = base + STEP_ENTRY * i;
        let dx = read_i8(b, off);
        let dy = read_i8(b, off + 1);
        proof {
            assert(step_sum(b@, 0, i + 1) == step_sum(b@, 0, i as int) + dx);
            assert(step_sum(b@, 1, i + 1) == step_sum(b@, 1, i as int) + dy);
        }
        cx = cx + dx;
        cy = cy + dy;
        if cx < -MAX_COORD || cx > MAX_COORD || cy < -MAX_COORD || cy > MAX_COORD {
            proof {
                let k = i as int;
                assert(!(-MAX_COORD <= point_coord(b@, sx as int, 0, k) <= MAX_COORD
                    && -MAX_COORD <= point_coord(b@, sy as int, 1, k) <= MAX_COORD));
                assert(curve_data(b@) is None);
            }
            return None;
        }
        points.push(Point { x: cx, y: cy });
        tunnels.push(b[(off + 2) as usize] != 0);
        i += 1;
    }
    let ghost expected = curve_data(b@);
    assert(points@ =~= Seq::new(
        n as nat,
        |k: int| Point { x: point_coord(b@, sx as int, 0, k) as i64, y: point_coord(b@, sy as int, 1, k) as i64 },
    ));
    assert(tunnels@ =~= Seq::new(n as nat, |k: int| step_tunnel(b@, k)));
    Some((points, tunnels))
}

impl Curve {
    /// Replaces the points with those of the resource read from `source`.
    /// On a malformed resource nothing changes and `None` is returned.
    pub fn load_from_bytes(&mut self, source: String, bytes: &[u8]) -> (r: Option<()>)
        ensures
            r is Some <==> curve_data(bytes@) is Some,
            r is None ==> *final(self) == *old(self),
            curve_data(bytes@) matches Some((p, t)) ==> {
                &&& final(self).points@ == p
                &&& final(self).is_tunnel@ == t
                &&& final(self).last_loaded@ == source@
                &&& final(self).wf()
            },
    {
        match parse_curve(bytes) {
            Some((points, tunnels)) => {
                self.points = points;
                self.is_tunnel = tunnels;
                self.last_loaded = source;
                Some(())
            },
            None => None,
        }
    }
}

} // verus!
