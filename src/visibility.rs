//! Line of sight from the shooter to the tokens on the path.

use vstd::prelude::*;
use crate::curve::Curve;
use crate::geometry::{Point, MAX_VEC};
use crate::model::{Ball, Frog, GameState, balls_wf};

verus! {

/// Radius of a token, in fixed-point steps.
pub const TOKEN_RADIUS: i64 = 3200;

/// Numerator of the margin that keeps a blocker strictly between the shooter
/// and the target; the margin is `LEEWAY / sqrt(dot)`.
pub const LEEWAY: i64 = 2700;

/// The token at `obs` blocks a shot from `frog` at the token at `cand`.
///
/// With `s` the offset from the shooter to the target and `o` the offset to
/// the blocker, the blocker projects onto the line of fire at
/// `k = (s . o) / (s . s)`, at squared distance `o . o - (s . o)^2 / (s . s)`
/// from it. It blocks when that distance is below the token radius and
/// `m < k < 1 - m`, where `m = LEEWAY / sqrt(s . o)`. The comparisons are
/// written below with the divisions and the root multiplied out.
pub open spec fn occludes(frog: Point, cand: Point, obs: Point) -> bool {
    let sx = cand.x - frog.x;
    let sy = cand.y - frog.y;
    let ox = obs.x - frog.x;
    let oy = obs.y - frog.y;
    let s = sx * sx + sy * sy;
    let d = sx * ox + sy * oy;
    let o = ox * ox + oy * oy;
    let r = TOKEN_RADIUS as int;
    let l = LEEWAY as int;
    &&& s > 0
    &&& d > 0
    &&& o * s - d * d < r * r * s
    &&& (l * s) * (l * s) < d * d * d
    &&& d < s
    &&& (l * s) * (l * s) < (s - d) * (s - d) * d
}

/// The token is outside any tunnel and no token outside a tunnel blocks it.
pub open spec fn is_visible(frog: Point, curve: Curve, balls: Seq<Ball>, b: Ball) -> bool {
    &&& !curve.spec_tunnel_at(b.distance_along_path as int)
    &&& forall|j: int|
        0 <= j < balls.len() && !curve.spec_tunnel_at(balls[j].distance_along_path as int)
            ==> !occludes(frog, b.coordinates, #[trigger] balls[j].coordinates)
}

pub open spec fn visible_pred(frog: Point, curve: Curve, balls: Seq<Ball>) -> spec_fn(Ball) -> bool {
    |b: Ball| is_visible(frog, curve, balls, b)
}

/// The tokens the shooter can hit, in path order.
pub open spec fn reachable_set(frog: Point, curve: Curve, balls: Seq<Ball>) -> Seq<Ball> {
    balls.filter(visible_pred(frog, curve, balls))
}

proof fn lemma_mul_le(a: int, b: int, x: int, y: int)
    requires
        0 <= a <= x,
        0 <= b <= y,
    ensures
        0 <= a * b <= x * y,
{
    assert(0 <= a * b <= x * y) by (nonlinear_arith)
        requires
            0 <= a <= x,
            0 <= b <= y,
    ;
}

/// Decides `occludes` for valid positions.
pub fn occludes_exec(frog: Point, cand: Point, obs: Point) -> (r: bool)
    requires
        frog.in_bounds(),
        cand.in_bounds(),
        obs.in_bounds(),
    ensures
        r == occludes(frog, cand, obs),
{
    let src = cand.sub(frog);
    let off = obs.sub(frog);
    proof {
        crate::geometry::lemma_small_products(off, off);
    }
    let s = src.dot(&src) as i128;
    let d = src.dot(&off) as i128;
    let o = off.dot(&off) as i128;
    if s <= 0 || d <= 0 || d >= s {
        return false;
    }
    let ghost b: int = 2 * MAX_VEC * MAX_VEC;
    assert(b == 0x200_0000_0000);
    let r = TOKEN_RADIUS as i128;
    let l = LEEWAY as i128;
    proof {
        lemma_mul_le(o as int, s as int, b, b);
        lemma_mul_le(d as int, d as int, b, b);
        lemma_mul_le(r * r, s as int, r * r, b);
        lemma_mul_le(l as int, s as int, l as int, b);
        lemma_mul_le(l * s, l * s, l * b, l * b);
        lemma_mul_le(d * d, d as int, b * b, b);
        lemma_mul_le((s - d) as int, (s - d) as int, b, b);
        lemma_mul_le((s - d) * (s - d), d as int, b * b, b);
        assert(b * b == 0x4_0000_0000_0000_0000_0000) by (nonlinear_arith)
            requires
                b == 0x200_0000_0000,
        ;
        assert(b * b * b == 0x800_0000_0000_0000_0000_0000_0000_0000) by (nonlinear_arith)
            requires
                b == 0x200_0000_0000,
        ;
        assert(l * b * (l * b) < 0x1_0000_0000_0000_0000_0000_0000_0000) by (nonlinear_arith)
            requires
                b == 0x200_0000_0000,
                l == LEEWAY,
        ;
    }
    let near = o * s - d * d < r * r * s;
    let ls = l * s;
    let past_start = ls * ls < d * d * d;
    let before_end = ls * ls < (s - d) * (s - d) * d;
    near && past_start && before_end
}

/// Decides `is_visible` for a valid token of a valid, non-empty snapshot.
pub fn is_visible_exec(frog: &Frog, state: &GameState, b: &Ball) -> (r: bool)
    requires
        frog.wf(),
        state.wf(),
        state.balls@.len() > 0,
        b.wf(),
    ensures
        r == is_visible(frog.location, state.curve, state.balls@, *b),
{
    if state.curve.get_tunnel_at_dist(b.distance_along_path) {
        return false;
    }
    let n = state.balls.len();
    let mut j: usize = 0;
    while j < n
        invariant
            frog.wf(),
            state.wf(),
            b.wf(),
            n == state.balls@.len(),
            n > 0,
            j <= n,
            forall|k: int|
                0 <= k < j && !state.curve.spec_tunnel_at(state.balls@[k].distance_along_path as int)
                    ==> !occludes(frog.location, b.coordinates, #[trigger] state.balls@[k].coordinates),
        decreases n - j,
    {
        let obstacle = &state.balls[j];
        assert(state.balls@[j as int].wf());
        if !state.curve.get_tunnel_at_dist(obstacle.distance_along_path)
            && occludes_exec(frog.location, b.coordinates, obstacle.coordinates) {
            return false;
        }
        j += 1;
    }
    true
}

/// The tokens the shooter can hit without another token in the way, in
/// path order.
pub fn reachable_balls(frog: &Frog, balls: &GameState) -> (r: Vec<Ball>)
    requires
        frog.wf(),
        balls.wf(),
    ensures
        r@ == reachable_set(frog.location, balls.curve, balls.balls@),
{
    let ghost pred = visible_pred(frog.location, balls.curve, balls.balls@);
    let mut out: Vec<Ball> = Vec::new();
    let n = balls.balls.len();
    let mut i: usize = 0;
    while i < n
        invariant
            frog.wf(),
            balls.wf(),
            n == balls.balls@.len(),
            i <= n,
            pred == visible_pred(frog.location, balls.curve, balls.balls@),
            out@ == balls.balls@.take(i as int).filter(pred),
        decreases n - i,
    {
        let b = balls.balls[i];
        assert(balls.balls@[i as int].wf());
        let visible = is_visible_exec(frog, balls, &b);
        proof {
            let s = balls.balls@.take(i as int + 1);
            assert(s.drop_last() =~= balls.balls@.take(i as int));
            assert(s.last() == b);
            reveal(Seq::filter);
        }
        if visible {
            out.push(b);
        }
        i += 1;
    }
    assert(balls.balls@.take(n as int) =~= balls.balls@);
    out
}

/// A token never blocks a shot at itself.
pub proof fn lemma_no_self_occlusion(frog: Point, p: Point)
    ensures
        !occludes(frog, p, p),
{
}

/// A single token outside any tunnel can always be hit.
pub proof fn lemma_single_ball_reachable(frog: Point, curve: Curve, b: Ball)
    requires
        !curve.spec_tunnel_at(b.distance_along_path as int),
    ensures
        reachable_set(frog, curve, seq![b]) == seq![b],
{
    let balls = seq![b];
    lemma_no_self_occlusion(frog, b.coordinates);
    assert(is_visible(frog, curve, balls, b));
    reveal_with_fuel(Seq::filter, 2);
    assert(balls.drop_last() =~= Seq::<Ball>::empty());
}

/// Taking any token off the path never makes another token unreachable.
pub proof fn lemma_remove_keeps_reachable(frog: Point, curve: Curve, balls: Seq<Ball>, removed: int, b: Ball)
    requires
        0 <= removed < balls.len(),
        is_visible(frog, curve, balls, b),
    ensures
        is_visible(frog, curve, balls.remove(removed), b),
{
    let rest = balls.remove(removed);
    assert forall|j: int|
        0 <= j < rest.len() && !curve.spec_tunnel_at(rest[j].distance_along_path as int)
            implies !occludes(frog, b.coordinates, #[trigger] rest[j].coordinates) by {
        if j < removed {
            assert(rest[j] == balls[j]);
        } else {
            assert(rest[j] == balls[j + 1]);
        }
    }
}

} // verus!
