//! Tokens, the shooter and the per-tick snapshot of the game.

use vstd::prelude::*;
use crate::curve::Curve;
use crate::geometry::{Point, SCALE};

verus! {

/// Largest magnitude of an arc-length distance (in fixed-point steps).
pub const MAX_DIST: i64 = 0x100_0000_0000;

/// Largest magnitude of a speed (in fixed-point steps per frame).
pub const MAX_SPEED: i64 = 0x100_0000;

/// Largest number of tokens in one snapshot.
pub const MAX_BALLS: usize = 0xffff_ffff;

#[derive(Clone, Copy, Debug, PartialEq, Eq, Structural)]
pub enum BallColor {
    Blue,
    Yellow,
    Red,
    Green,
    Purple,
    White,
}

/// Special effect carried by a token; the engine does not act on it.
#[derive(Clone, Copy, Debug, PartialEq, Eq, Structural)]
pub enum BallEffect {
    NoEffect,
    Slow,
    Reverse,
    Bomb,
    Visor,
}

/// A token on the path.
#[derive(Clone, Copy, Debug, PartialEq, Eq, Structural)]
pub struct Ball {
    pub coordinates: Point,
    pub is_reachable: bool,
    pub color: BallColor,
    pub effect: BallEffect,
    /// Arc-length position along the path, in fixed-point steps.
    pub distance_along_path: i64,
    /// Identity that stays the same for one physical token across ticks.
    pub id: u32,
}

impl Ball {
    pub open spec fn wf(&self) -> bool {
        &&& self.coordinates.in_bounds()
        &&& -MAX_DIST <= self.distance_along_path <= MAX_DIST
    }
}

/// A snapshot of the path and its tokens, in path order.
#[derive(Clone, Debug)]
pub struct GameState {
    pub balls: Vec<Ball>,
    pub curve: Curve,
    /// Speed of the tokens while the queue moves forward, in steps per frame.
    pub forward_speed: i64,
    /// Speed of the tokens while the queue moves backward, in steps per frame.
    pub back_speed: i64,
    /// Frames left of the current backward phase.
    pub backwards_time_left: u32,
}

/// Every ball in the sequence is a valid token.
pub open spec fn balls_wf(balls: Seq<Ball>) -> bool {
    forall|i: int| 0 <= i < balls.len() ==> (#[trigger] balls[i]).wf()
}

impl GameState {
    pub open spec fn wf(&self) -> bool {
        &&& self.curve.wf()
        &&& (self.balls@.len() > 0 ==> self.curve.points@.len() >= 2)
        &&& self.balls@.len() <= MAX_BALLS
        &&& balls_wf(self.balls@)
        &&& -MAX_SPEED <= self.forward_speed <= MAX_SPEED
        &&& -MAX_SPEED <= self.back_speed <= MAX_SPEED
    }

    /// An empty snapshot: no tokens, no curve, standing still.
    pub fn new() -> (r: GameState)
        ensures
            r.wf(),
            r.balls@.len() == 0,
            r.curve.points@.len() == 0,
            r.forward_speed == 0,
            r.back_speed == -SCALE,
            r.backwards_time_left == 0,
    {
        GameState {
            balls: Vec::new(),
            curve: Curve::new(),
            forward_speed: 0,
            back_speed: -SCALE,
            backwards_time_left: 0,
        }
    }
}

/// The shooter and the two tokens it holds.
#[derive(Clone, Copy, Debug)]
pub struct Frog {
    pub location: Point,
    pub active_ball: Ball,
    pub next_ball: Ball,
    /// Speed of a fired token, in steps per frame.
    pub ball_exit_speed: i64,
}

impl Frog {
    pub open spec fn wf(&self) -> bool {
        &&& self.location.in_bounds()
        &&& 1 <= self.ball_exit_speed <= MAX_SPEED
    }
}

/// How the shooter may move between shots.
#[derive(Clone, Debug)]
pub enum FrogType {
    /// The shooter does not move.
    Static(Point),
    /// The shooter jumps between several positions.
    Jumper(Vec<Point>),
    /// The shooter slides along a segment.
    Slider(Point, Point),
}

} // verus!
