use zuma_bot::bot::{
    prune_memo, select_color_target, select_palindrome_target, suggest_shot, suggest_shot_color,
    suggest_shot_palidrome_simple, BotMode, BotMove,
};
use zuma_bot::curve::Curve;
use zuma_bot::geometry::Point;
use zuma_bot::model::BallColor::{Blue, Green, Red, Yellow};
use zuma_bot::model::{Ball, BallColor, BallEffect, Frog, GameState};
use zuma_bot::predict::{adjust_for_travel_time, Shot};
use zuma_bot::sequence::{color_runs, find_palidromes, run_groups, Palindrome};
use zuma_bot::visibility::reachable_balls;

fn ball(color: BallColor, id: u32, x: i64, y: i64, dist: i64) -> Ball {
    Ball {
        coordinates: Point { x, y },
        is_reachable: true,
        color,
        effect: BallEffect::NoEffect,
        distance_along_path: dist,
        id,
    }
}

/// A straight track along the x axis at height `y`, one point per path unit.
fn straight_curve(units: i64, y: i64) -> Curve {
    let mut curve = Curve::new();
    for i in 0..units {
        curve.points.push(Point { x: i * 100, y });
        curve.is_tunnel.push(false);
    }
    curve
}

fn state_with(balls: Vec<Ball>) -> GameState {
    GameState {
        balls,
        curve: straight_curve(1000, 10000),
        ..GameState::new()
    }
}

fn frog_at(x: i64, y: i64, color: BallColor) -> Frog {
    let held = ball(color, 900, x, y, 0);
    Frog {
        location: Point { x, y },
        active_ball: held,
        next_ball: ball(BallColor::Blue, 901, x, y, 0),
        ball_exit_speed: 1000,
    }
}

/// Tokens on the track, path-adjacent, 32 units apart.
fn row(colors: &[BallColor]) -> Vec<Ball> {
    colors
        .iter()
        .enumerate()
        .map(|(i, &c)| {
            let d = 10000 + (i as i64) * 3200;
            ball(c, i as u32, d, 10000, d)
        })
        .collect()
}

#[test]
fn run_groups_largest_first() {
    let balls = row(&[Red, Red, Red, Blue]);
    let groups = run_groups(&balls);
    assert_eq!(groups, vec![(Red, 3, 0), (Blue, 1, 3)]);
}

#[test]
fn run_groups_ties_later_first() {
    let balls = row(&[Red, Blue, Blue, Green]);
    let groups = run_groups(&balls);
    assert_eq!(groups, vec![(Blue, 2, 1), (Green, 1, 3), (Red, 1, 0)]);
    assert_eq!(color_runs(&balls), vec![(Red, 1, 0), (Blue, 2, 1), (Green, 1, 3)]);
    assert!(run_groups(&Vec::new()).is_empty());
}

#[test]
fn pattern_around_center_run() {
    let state = state_with(row(&[Blue, Red, Red, Red, Blue]));
    let pats = find_palidromes(&state);
    assert_eq!(pats.len(), 3);
    let center = &pats[1];
    assert_eq!(center.center, 1);
    assert_eq!(center.sequence, vec![(Red, 3), (Blue, 2)]);
    assert!(center.get_breaking_len() > 0);
    assert_eq!(center.get_breaking_len(), 3);
    assert_eq!(pats[0].sequence, vec![(Blue, 1)]);
}

#[test]
fn breaking_score_values() {
    let deep = Palindrome { center: 0, sequence: vec![(Red, 5), (Blue, 4), (Green, 2), (Red, 9)] };
    assert_eq!(deep.get_breaking_len(), 5);
    let single = Palindrome { center: 0, sequence: vec![(Red, 1), (Blue, 6)] };
    assert_eq!(single.get_breaking_len(), 0);
    let alone = Palindrome { center: 0, sequence: vec![(Red, 2)] };
    assert_eq!(alone.get_breaking_len(), 2);
}

#[test]
fn token_blocks_token_behind_it() {
    let frog = frog_at(0, 0, BallColor::Red);
    let near = ball(BallColor::Red, 1, 0, 10000, 10000);
    let far = ball(BallColor::Blue, 2, 0, 20000, 20000);
    let state = state_with(vec![near, far]);
    assert_eq!(reachable_balls(&frog, &state), vec![near]);
}

#[test]
fn token_beside_line_does_not_block() {
    let frog = frog_at(0, 0, BallColor::Red);
    let a = ball(BallColor::Red, 1, 10000, 10000, 10000);
    let b = ball(BallColor::Blue, 2, -10000, 10000, 20000);
    let state = state_with(vec![a, b]);
    assert_eq!(reachable_balls(&frog, &state), vec![a, b]);
}

#[test]
fn single_token_is_reachable() {
    let frog = frog_at(50000, 40000, BallColor::Red);
    let only = ball(BallColor::Red, 7, 50000, 10000, 50000);
    let state = state_with(vec![only]);
    assert_eq!(reachable_balls(&frog, &state), vec![only]);
}

#[test]
fn removing_obstacle_keeps_reachable() {
    let frog = frog_at(0, 0, BallColor::Red);
    let near = ball(BallColor::Red, 1, 0, 10000, 10000);
    let far = ball(BallColor::Blue, 2, 0, 20000, 20000);
    let side = ball(BallColor::Green, 3, 20000, 10000, 30000);
    let all = reachable_balls(&frog, &state_with(vec![near, far, side]));
    let fewer = reachable_balls(&frog, &state_with(vec![far, side]));
    for b in &all {
        if b.id != near.id {
            assert!(fewer.contains(b));
        }
    }
    assert!(fewer.contains(&far));
}

#[test]
fn tunnel_tokens_are_skipped() {
    let frog = frog_at(0, 0, BallColor::Red);
    let mut state = state_with(vec![ball(BallColor::Red, 1, 50000, 10000, 50000)]);
    state.curve.is_tunnel[500] = true;
    assert!(reachable_balls(&frog, &state).is_empty());
    let mut memo = Vec::new();
    assert_eq!(suggest_shot_color(&frog, &state, &mut memo, 0), BotMove::Nothing);
}

#[test]
fn empty_scene_gives_nothing() {
    let frog = frog_at(50000, 40000, BallColor::Red);
    let state = state_with(vec![]);
    let mut memo = vec![Shot { ball_id: 1, target_id: 2, shot_time: 0, expected_travel_time: 5 }];
    assert_eq!(suggest_shot(&frog, &state, BotMode::ColorBot, &mut memo, 100), BotMove::Nothing);
    assert_eq!(memo.len(), 1);
    assert_eq!(
        suggest_shot(&frog, &state, BotMode::PalindromeBreaker, &mut memo, 100),
        BotMove::Nothing
    );
}

#[test]
fn single_token_ahead_is_shot() {
    let frog = frog_at(50000, 40000, BallColor::Red);
    let only = ball(BallColor::Red, 7, 50000, 10000, 50000);
    let state = state_with(vec![only]);
    let mut memo = Vec::new();
    let mv = suggest_shot_color(&frog, &state, &mut memo, 1000);
    let projected = state.curve.get_pos_at_dist(only.distance_along_path);
    match mv {
        BotMove::Shoot(p) => {
            assert!(p.dist_sq(&projected) <= 3200 * 3200);
            assert_eq!(p, Point { x: 50000, y: 11500 });
        }
        _ => panic!("expected a shot"),
    }
    assert_eq!(memo.len(), 1);
    assert_eq!(memo[0].ball_id, 900);
    assert_eq!(memo[0].target_id, 7);
    assert_eq!(memo[0].shot_time, 1000);
    // 300 path units at 10 units per frame, 17 ms per frame.
    assert_eq!(memo[0].expected_travel_time, 510);
}

#[test]
fn color_strategy_prefers_larger_run() {
    let frog = frog_at(30000, 60000, Red);
    let state = state_with(row(&[Red, Blue, Red, Red, Green]));
    assert_eq!(select_color_target(&frog, &state), Some(2));
    let green = frog_at(30000, 60000, Yellow);
    assert_eq!(select_color_target(&green, &state), Some(4));
}

#[test]
fn palindrome_strategy_picks_deepest_pattern() {
    let frog = frog_at(30000, 60000, Red);
    let state = state_with(row(&[Green, Red, Blue, Blue, Blue, Red, Yellow]));
    // The blue run is flanked by red on both sides, but the frog holds red:
    // the red runs are single tokens with no pattern around them.
    assert_eq!(select_palindrome_target(&frog, &state), Some(1));
    let blue = frog_at(30000, 60000, Blue);
    assert_eq!(select_palindrome_target(&blue, &state), Some(2));
    let memo = vec![];
    match suggest_shot_palidrome_simple(&blue, &state, &memo) {
        BotMove::Shoot(_) => {}
        _ => panic!("expected a shot"),
    }
    let short = state_with(row(&[Blue, Blue, Blue]));
    assert_eq!(suggest_shot_palidrome_simple(&blue, &short, &memo), BotMove::Nothing);
}

#[test]
fn prediction_is_deterministic() {
    let frog = frog_at(30000, 60000, Red);
    let mut state = state_with(row(&[Red, Blue, Red, Red, Green]));
    state.forward_speed = 50;
    let memo = vec![Shot { ball_id: 20, target_id: 1, shot_time: 0, expected_travel_time: 900 }];
    let a = adjust_for_travel_time(&frog, &state, 3, &memo);
    let b = adjust_for_travel_time(&frog, &state, 3, &memo);
    assert_eq!(a, b);
}

#[test]
fn prediction_leads_moving_cluster() {
    let frog = frog_at(30000, 60000, Red);
    let mut state = state_with(row(&[Red, Blue, Red, Red, Green]));
    // A gap after the last token: the cluster touches the start only.
    state.balls.push(ball(Red, 9, 90000, 10000, 90000));
    state.forward_speed = 100;
    let still = adjust_for_travel_time(&frog, &state, 0, &[]);
    let memo = vec![Shot { ball_id: 20, target_id: 0, shot_time: 0, expected_travel_time: 900 }];
    let pushed = adjust_for_travel_time(&frog, &state, 2, &memo);
    let plain = adjust_for_travel_time(&frog, &state, 2, &[]);
    assert!(still.0.x > 10000);
    assert_eq!(pushed.0.x, plain.0.x + 3200);
}

#[test]
fn memo_drops_landed_and_expired_shots() {
    let balls = row(&[BallColor::Red, BallColor::Blue]);
    let landed = Shot { ball_id: 1, target_id: 0, shot_time: 100, expected_travel_time: 1000 };
    let expired = Shot { ball_id: 50, target_id: 0, shot_time: 100, expected_travel_time: 200 };
    let pending = Shot { ball_id: 51, target_id: 1, shot_time: 100, expected_travel_time: 1000 };
    let mut memo = vec![landed, expired, pending];
    prune_memo(&mut memo, &balls, 300);
    assert_eq!(memo, vec![pending]);
    let mut early = vec![Shot { ball_id: 52, target_id: 1, shot_time: 500, expected_travel_time: 10 }];
    prune_memo(&mut early, &balls, 300);
    assert_eq!(early.len(), 1);
}

#[test]
fn mode_labels() {
    assert_eq!(BotMode::ColorBot.label(), "Color matcher");
    assert_eq!(BotMode::PalindromeBreaker.label(), "Simple palindrome breaker");
}

#[test]
fn backward_phase_moves_end_cluster_back() {
    let frog = frog_at(30000, 60000, Red);
    let mut state = state_with(row(&[Green, Red, Blue, Red, Red]));
    // A gap after the first token: the target's cluster reaches the end only.
    state.balls[0] = ball(Green, 0, 0, 10000, 0);
    state.backwards_time_left = 10;
    let (back, _) = adjust_for_travel_time(&frog, &state, 3, &[]);
    assert_eq!(back.x, 14400);
    state.backwards_time_left = 0;
    let (idle, _) = adjust_for_travel_time(&frog, &state, 3, &[]);
    assert_eq!(idle.x, 19600);
}

#[test]
fn palindrome_strategy_ties_go_to_first() {
    let frog = frog_at(30000, 60000, Red);
    let state = state_with(row(&[Red, Red, Blue, Red, Red, Green]));
    // Both red runs score alike: the first one along the path wins.
    assert_eq!(select_palindrome_target(&frog, &state), Some(0));
}
