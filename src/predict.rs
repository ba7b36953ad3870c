//! Lead aiming: where the target token will be when a shot fired now
//! arrives, and how long the shot flies.

use vstd::prelude::*;
use crate::geometry::{Point, floor_sqrt, trunc_div};
use crate::model::{Ball, Frog, GameState, MAX_DIST, MAX_SPEED, MAX_BALLS};

verus! {

/// Largest distance between neighbouring tokens of one cluster.
pub const CLUSTER_GAP: i64 = 3250;

/// Path length that one inserted token pushes the queue forward.
pub const TOKEN_DIAMETER: i64 = 3210;

/// Offset of the aim point from the path toward the shooter, so that the
/// rim of the shot, not its center, meets the target.
pub const AIM_OFFSET: i64 = 1500;

/// Milliseconds per frame of shot flight.
pub const MS_PER_FRAME: i64 = 17;

/// A shot that was fired and has not been seen to land yet.
#[derive(Clone, Copy, Debug, PartialEq, Eq, Structural)]
pub struct Shot {
    /// Id of the token that was fired.
    pub ball_id: u32,
    /// Id of the token it was aimed at.
    pub target_id: u32,
    /// When it was fired, in milliseconds.
    pub shot_time: u64,
    /// How long it was expected to fly, in milliseconds.
    pub expected_travel_time: u64,
}

/// The two tokens are too far apart to belong to one cluster.
pub open spec fn is_gap(a: Ball, b: Ball) -> bool {
    a.coordinates.spec_dist_sq(b.coordinates) > CLUSTER_GAP * CLUSTER_GAP
}

/// First index of the cluster holding token `t`.
pub open spec fn cluster_start(balls: Seq<Ball>, t: int) -> int
    decreases t,
{
    if t <= 0 {
        0
    } else if is_gap(balls[t - 1], balls[t]) {
        t
    } else {
        cluster_start(balls, t - 1)
    }
}

/// Last index of the cluster holding token `t`.
pub open spec fn cluster_end(balls: Seq<Ball>, t: int) -> int
    decreases balls.len() - t,
{
    if t + 1 >= balls.len() {
        t
    } else if is_gap(balls[t], balls[t + 1]) {
        t
    } else {
        cluster_end(balls, t + 1)
    }
}

/// Speed of the cluster holding token `t`: the backward speed when the
/// cluster reaches the end of the queue but not its start during a backward
/// phase, the forward speed when it reaches the start but not the end, and
/// zero otherwise.
pub open spec fn cluster_speed(state: GameState, t: int) -> int {
    let balls = state.balls@;
    let at_start = cluster_start(balls, t) == 0;
    let at_end = cluster_end(balls, t) == balls.len() - 1;
    if at_end && state.backwards_time_left > 0 && !at_start {
        state.back_speed as int
    } else if at_start && !at_end {
        state.forward_speed as int
    } else {
        0
    }
}

/// A shot in `memo` is aimed at the token with this id.
pub open spec fn is_targeted(memo: Seq<Shot>, id: u32) -> bool {
    exists|i: int| 0 <= i < memo.len() && (#[trigger] memo[i]).target_id == id
}

/// Number of tokens in `lo..hi` that a pending shot is aimed at.
pub open spec fn count_targeted(balls: Seq<Ball>, memo: Seq<Shot>, lo: int, hi: int) -> nat
    decreases hi - lo,
{
    if hi <= lo {
        0
    } else {
        count_targeted(balls, memo, lo, hi - 1) + if is_targeted(memo, balls[hi - 1].id) {
            1nat
        } else {
            0nat
        }
    }
}

/// Shot flight distance from the shooter to token `t`, rounded down.
pub open spec fn flight_dist(frog: Frog, state: GameState, t: int) -> int {
    floor_sqrt(frog.location.spec_dist_sq(state.balls@[t].coordinates) as nat) as int
}

/// Where along the path token `t` will be when the shot arrives.
pub open spec fn projected_dist(frog: Frog, state: GameState, t: int, memo: Seq<Shot>) -> int {
    let balls = state.balls@;
    balls[t].distance_along_path + trunc_div(
        cluster_speed(state, t) * flight_dist(frog, state, t),
        frog.ball_exit_speed as int,
    ) + count_targeted(balls, memo, cluster_start(balls, t), t) * TOKEN_DIAMETER
}

/// The point to aim at for token `t`, and the flight time in milliseconds.
pub open spec fn predict_spec(frog: Frog, state: GameState, t: int, memo: Seq<Shot>) -> (Point, u64) {
    let d = projected_dist(frog, state, t, memo);
    let point = state.curve.spec_pos_at(d);
    let normal = state.curve.spec_normal_at(d);
    let offset = normal.spec_scaled_to(AIM_OFFSET as int);
    let toward = Point { x: (point.x - frog.location.x) as i64, y: (point.y - frog.location.y) as i64 };
    let aim = if normal.spec_dot(toward) < 0 {
        Point { x: (point.x + offset.x) as i64, y: (point.y + offset.y) as i64 }
    } else {
        Point { x: (point.x - offset.x) as i64, y: (point.y - offset.y) as i64 }
    };
    (aim, (flight_dist(frog, state, t) * MS_PER_FRAME / (frog.ball_exit_speed as int)) as u64)
}

fn gap_exec(a: &Ball, b: &Ball) -> (r: bool)
    requires
        a.wf(),
        b.wf(),
    ensures
        r == is_gap(*a, *b),
{
    a.coordinates.dist_sq(&b.coordinates) > CLUSTER_GAP * CLUSTER_GAP
}

fn cluster_start_exec(balls: &Vec<Ball>, t: usize) -> (r: usize)
    requires
        t < balls@.len(),
        crate::model::balls_wf(balls@),
    ensures
        r == cluster_start(balls@, t as int),
        r <= t,
{
    let mut s: usize = t;
    while s > 0 && !gap_exec(&balls[s - 1], &balls[s])
        invariant
            s <= t < balls@.len(),
            crate::model::balls_wf(balls@),
            cluster_start(balls@, s as int) == cluster_start(balls@, t as int),
        decreases s,
    {
        s -= 1;
    }
    s
}

fn cluster_end_exec(balls: &Vec<Ball>, t: usize) -> (r: usize)
    requires
        t < balls@.len(),
        crate::model::balls_wf(balls@),
    ensures
        r == cluster_end(balls@, t as int),
        t <= r < balls@.len(),
{
    let n = balls.len();
    let mut e: usize = t;
    while e + 1 < n && !gap_exec(&balls[e], &balls[e + 1])
        invariant
            t <= e < n,
            n == balls@.len(),
            crate::model::balls_wf(balls@),
            cluster_end(balls@, e as int) == cluster_end(balls@, t as int),
        decreases n - e,
    {
        e += 1;
    }
    e
}

fn is_targeted_exec(memo: &[Shot], id: u32) -> (r: bool)
    ensures
        r == is_targeted(memo@, id),
{
    let mut i: usize = 0;
    while i < memo.len()
        invariant
            i <= memo@.len(),
            forall|k: int| 0 <= k < i ==> (#[trigger] memo@[k]).target_id != id,
        decreases memo@.len() - i,
    {
        if memo[i].target_id == id {
            return true;
        }
        i += 1;
    }
    false
}

/// Aim point and flight time (in milliseconds) for a shot at token
/// `target_idx`, leading the target by the distance its cluster travels
/// while the shot flies and by the tokens that pending shots insert ahead
/// of it.
pub fn adjust_for_travel_time(frog: &Frog, state: &GameState, target_idx: usize, memo: &[Shot]) -> (r: (Point, u64))
    requires
        frog.wf(),
        state.wf(),
        target_idx < state.balls@.len(),
    ensures
        r == predict_spec(*frog, *state, target_idx as int, memo@),
{
    let balls = &state.balls;
    let target = balls[target_idx];
    assert(balls@[target_idx as int].wf());
    let dist = frog.location.dist(&target.coordinates);
    let start = cluster_start_exec(balls, target_idx);
    let end = cluster_end_exec(balls, target_idx);
    let at_start = start == 0;
    let at_end = end == balls.len() - 1;
    let ball_speed: i64 = if at_end && state.backwards_time_left > 0 && !at_start {
        state.back_speed
    } else if at_start && !at_end {
        state.forward_speed
    } else {
        0
    };
    let mut inserted: u64 = 0;
    let mut k: usize = start;
    while k < target_idx
        invariant
            start <= k <= target_idx,
            target_idx < balls@.len() <= MAX_BALLS,
            inserted == count_targeted(balls@, memo@, start as int, k as int),
            inserted <= k - start,
        decreases target_idx - k,
    {
        if is_targeted_exec(memo, balls[k].id) {
            inserted += 1;
        }
        k += 1;
    }
    proof {
        assert(-MAX_SPEED * 0x20_0000 <= ball_speed * dist <= MAX_SPEED * 0x20_0000) by (nonlinear_arith)
            requires
                -MAX_SPEED <= ball_speed <= MAX_SPEED,
                0 <= dist <= 0x20_0000,
        ;
    }
    let advance = crate::geometry::div_toward_zero(
        (ball_speed as i128) * (dist as i128),
        frog.ball_exit_speed as i128,
    );
    proof {
        assert(-MAX_SPEED * 0x20_0000 <= advance <= MAX_SPEED * 0x20_0000) by (nonlinear_arith)
            requires
                advance == trunc_div(ball_speed * dist, frog.ball_exit_speed as int),
                -MAX_SPEED * 0x20_0000 <= ball_speed * dist <= MAX_SPEED * 0x20_0000,
                frog.ball_exit_speed >= 1,
        ;
    }
    let projected: i64 = target.distance_along_path + (advance as i64) + (inserted as i64) * TOKEN_DIAMETER;
    let point = state.curve.get_pos_at_dist(projected);
    let normal = state.curve.get_normal_at_dist(projected);
    let offset = normal.scaled_to(AIM_OFFSET);
    let toward = point.sub(frog.location);
    let aim = if normal.dot(&toward) < 0 {
        point.add(offset)
    } else {
        point.sub(offset)
    };
    let ms = ((dist as u64) * (MS_PER_FRAME as u64)) / (frog.ball_exit_speed as u64);
    (aim, ms)
}

} // verus!
