//! The two targeting strategies and the bookkeeping of pending shots.

use vstd::prelude::*;
use crate::geometry::Point;
use crate::model::{Ball, BallColor, Frog, GameState};
use crate::predict::{Shot, adjust_for_travel_time, predict_spec};
use crate::sequence::{
    Run, rle, is_rle, ranks_before, run_groups, find_palidromes, is_pattern, breaking_score,
    lemma_run_end_bound,
};
use crate::visibility::{is_visible, is_visible_exec};

verus! {

/// What the shooter should do this tick.
#[derive(Clone, Copy, Debug, PartialEq, Eq, Structural)]
pub enum BotMove {
    Nothing,
    Shoot(Point),
    /// Swap the active and the next token, then shoot.
    SwapShoot(Point),
}

/// The targeting strategy.
#[derive(Clone, Copy, Debug, PartialEq, Eq, Structural)]
pub enum BotMode {
    ColorBot,
    PalindromeBreaker,
}

impl BotMode {
    /// A name for display.
    pub fn label(&self) -> (r: &'static str)
        ensures
            *self == BotMode::ColorBot ==> r@ == "Color matcher"@,
            *self == BotMode::PalindromeBreaker ==> r@ == "Simple palindrome breaker"@,
    {
        proof {
            reveal_strlit("Color matcher");
            reveal_strlit("Simple palindrome breaker");
        }
        match self {
            BotMode::ColorBot => "Color matcher",
            BotMode::PalindromeBreaker => "Simple palindrome breaker",
        }
    }
}

/// Milliseconds since `at`, or zero when `now` is earlier.
pub open spec fn elapsed(now: u64, at: u64) -> int {
    if now >= at {
        now - at
    } else {
        0
    }
}

/// The shot is still in flight: the token it fired has not shown up on the
/// path, and it has flown for less than its expected flight time.
pub open spec fn still_pending(balls: Seq<Ball>, now: u64, s: Shot) -> bool {
    &&& forall|j: int| 0 <= j < balls.len() ==> (#[trigger] balls[j]).id != s.ball_id
    &&& elapsed(now, s.shot_time) < s.expected_travel_time
}

pub open spec fn pending_pred(balls: Seq<Ball>, now: u64) -> spec_fn(Shot) -> bool {
    |s: Shot| still_pending(balls, now, s)
}

fn still_pending_exec(balls: &Vec<Ball>, now: u64, s: &Shot) -> (r: bool)
    ensures
        r == still_pending(balls@, now, *s),
{
    let mut j: usize = 0;
    while j < balls.len()
        invariant
            j <= balls@.len(),
            forall|k: int| 0 <= k < j ==> (#[trigger] balls@[k]).id != s.ball_id,
        decreases balls@.len() - j,
    {
        if balls[j].id == s.ball_id {
            return false;
        }
        j += 1;
    }
    let since: u64 = if now >= s.shot_time {
        now - s.shot_time
    } else {
        0
    };
    since < s.expected_travel_time
}

/// Drops the shots that have landed (their fired token is back among the
/// tokens) or that have flown longer than expected, keeping the order of
/// the rest.
pub fn prune_memo(memo: &mut Vec<Shot>, balls: &Vec<Ball>, now: u64)
    ensures
        final(memo)@ == old(memo)@.filter(pending_pred(balls@, now)),
        forall|i: int| 0 <= i < final(memo)@.len() ==> still_pending(balls@, now, #[trigger] final(memo)@[i]),
        forall|i: int|
            0 <= i < old(memo)@.len() && still_pending(balls@, now, #[trigger] old(memo)@[i])
                ==> final(memo)@.contains(old(memo)@[i]),
{
    let ghost pred = pending_pred(balls@, now);
    let ghost before = memo@;
    let mut kept: Vec<Shot> = Vec::new();
    let mut i: usize = 0;
    while i < memo.len()
        invariant
            memo@ == before,
            i <= before.len(),
            pred == pending_pred(balls@, now),
            kept@ == before.take(i as int).filter(pred),
        decreases before.len() - i,
    {
        let s = memo[i];
        let keep = still_pending_exec(balls, now, &s);
        proof {
            let t = before.take(i as int + 1);
            assert(t.drop_last() =~= before.take(i as int));
            assert(t.last() == s);
            reveal(Seq::filter);
        }
        if keep {
            kept.push(s);
        }
        i += 1;
    }
    assert(before.take(before.len() as int) =~= before);
    *memo = kept;
    proof {
        assert forall|i: int| 0 <= i < memo@.len() implies still_pending(balls@, now, #[trigger] memo@[i]) by {
            before.lemma_filter_pred(pred, i);
        }
        assert forall|i: int|
            0 <= i < before.len() && still_pending(balls@, now, #[trigger] before[i]) implies memo@.contains(before[i]) by {
            before.lemma_filter_contains(pred, i);
        }
    }
}

/// Token `j` can be hit.
pub open spec fn vis_at(frog: Frog, state: GameState, j: int) -> bool {
    is_visible(frog.location, state.curve, state.balls@, state.balls@[j])
}

/// Some token can be hit.
pub open spec fn some_visible(frog: Frog, state: GameState) -> bool {
    exists|j: int| 0 <= j < state.balls@.len() && vis_at(frog, state, j)
}

/// `t` is the last token that can be hit.
pub open spec fn is_last_visible(frog: Frog, state: GameState, t: int) -> bool {
    &&& 0 <= t < state.balls@.len()
    &&& vis_at(frog, state, t)
    &&& forall|j: int| t < j < state.balls@.len() ==> !vis_at(frog, state, j)
}

/// The run has the shooter's active color and a token that can be hit.
pub open spec fn run_qualifies(frog: Frog, state: GameState, run: Run) -> bool {
    &&& run.0 == frog.active_ball.color
    &&& exists|j: int| run.2 <= j < run.2 + run.1 && vis_at(frog, state, j)
}

/// The color strategy aims at `t`: among the runs of the active color with a
/// token that can be hit, the first in the ranking of runs, and in it the
/// first token that can be hit; when there is no such run, the last token
/// that can be hit.
pub open spec fn is_color_target(frog: Frog, state: GameState, t: int) -> bool {
    let runs = rle(state.balls@);
    if exists|k: int| 0 <= k < runs.len() && run_qualifies(frog, state, #[trigger] runs[k]) {
        exists|k: int|
            {
                &&& 0 <= k < runs.len()
                &&& run_qualifies(frog, state, #[trigger] runs[k])
                &&& forall|k2: int|
                    0 <= k2 < runs.len() && k2 != k && run_qualifies(frog, state, #[trigger] runs[k2])
                        ==> ranks_before(runs[k], runs[k2])
                &&& runs[k].2 <= t < runs[k].2 + runs[k].1
                &&& vis_at(frog, state, t)
                &&& forall|j: int| runs[k].2 <= j < t ==> !vis_at(frog, state, j)
            }
    } else {
        is_last_visible(frog, state, t)
    }
}

/// The pattern around run `i`.
pub open spec fn pattern_of(runs: Seq<Run>, i: int) -> Seq<(BallColor, u32)> {
    choose|layers: Seq<(BallColor, u32)>| is_pattern(runs, i, runs[i].2, layers)
}

/// The pattern around run `i` is centered on the active color, on a token
/// that can be hit.
pub open spec fn pattern_qualifies(frog: Frog, state: GameState, runs: Seq<Run>, i: int) -> bool {
    &&& runs[i].0 == frog.active_ball.color
    &&& vis_at(frog, state, runs[i].2 as int)
}

/// The pattern strategy aims at `t`: the center of the pattern with the
/// highest breaking score among those centered on the active color on a
/// token that can be hit, the first along the path on a tie; when there is
/// none, the last token that can be hit.
pub open spec fn is_palindrome_target(frog: Frog, state: GameState, t: int) -> bool {
    let runs = rle(state.balls@);
    if exists|i: int| 0 <= i < runs.len() && pattern_qualifies(frog, state, runs, i) {
        exists|i: int|
            {
                &&& 0 <= i < runs.len()
                &&& pattern_qualifies(frog, state, runs, i)
                &&& t == runs[i].2
                &&& forall|i2: int|
                    0 <= i2 < runs.len() && pattern_qualifies(frog, state, runs, i2)
                        ==> breaking_score(pattern_of(runs, i2)) <= breaking_score(pattern_of(runs, i))
                &&& forall|i2: int|
                    0 <= i2 < i && pattern_qualifies(frog, state, runs, i2)
                        ==> breaking_score(pattern_of(runs, i2)) < breaking_score(pattern_of(runs, i))
            }
    } else {
        is_last_visible(frog, state, t)
    }
}

/// A pattern is determined by its run.
pub proof fn lemma_pattern_unique(runs: Seq<Run>, i: int, c: usize, l1: Seq<(BallColor, u32)>, l2: Seq<(BallColor, u32)>)
    requires
        is_pattern(runs, i, c, l1),
        is_pattern(runs, i, c, l2),
    ensures
        l1 == l2,
{
    if l1.len() < l2.len() {
        assert(l2[l1.len() as int] == l2[l1.len() as int]);
        assert(false);
    }
    if l2.len() < l1.len() {
        assert(l1[l2.len() as int] == l1[l2.len() as int]);
        assert(false);
    }
    assert forall|r: int| 0 <= r < l1.len() implies l1[r] == l2[r] by {
        if r >= 1 {
            assert(l1[r] == l1[r] && l2[r] == l2[r]);
        }
    }
    assert(l1 =~= l2);
}

fn vis_exec(frog: &Frog, state: &GameState, j: usize) -> (r: bool)
    requires
        frog.wf(),
        state.wf(),
        j < state.balls@.len(),
    ensures
        r == vis_at(*frog, *state, j as int),
{
    assert(state.balls@[j as int].wf());
    is_visible_exec(frog, state, &state.balls[j])
}

/// The first token in `lo..hi` that can be hit, if any.
fn first_visible_in(frog: &Frog, state: &GameState, lo: usize, hi: usize) -> (r: Option<usize>)
    requires
        frog.wf(),
        state.wf(),
        lo <= hi <= state.balls@.len(),
    ensures
        r.is_some() ==> lo <= r.unwrap() < hi && vis_at(*frog, *state, r.unwrap() as int) && forall|m: int|
            lo <= m < r.unwrap() ==> !vis_at(*frog, *state, m),
        r.is_none() ==> forall|m: int| lo <= m < hi ==> !vis_at(*frog, *state, m),
{
    let mut j: usize = lo;
    while j < hi
        invariant
            frog.wf(),
            state.wf(),
            lo <= j <= hi <= state.balls@.len(),
            forall|m: int| lo <= m < j ==> !vis_at(*frog, *state, m),
        decreases hi - j,
    {
        if vis_exec(frog, state, j) {
            return Some(j);
        }
        j += 1;
    }
    None
}

/// The last token that can be hit, if any.
fn last_visible(frog: &Frog, state: &GameState) -> (r: Option<usize>)
    requires
        frog.wf(),
        state.wf(),
    ensures
        r.is_some() == some_visible(*frog, *state),
        r.is_some() ==> is_last_visible(*frog, *state, r.unwrap() as int),
{
    let mut j: usize = state.balls.len();
    while j > 0
        invariant
            frog.wf(),
            state.wf(),
            j <= state.balls@.len(),
            forall|m: int| j <= m < state.balls@.len() ==> !vis_at(*frog, *state, m),
        decreases j,
    {
        if vis_exec(frog, state, j - 1) {
            return Some(j - 1);
        }
        j -= 1;
    }
    None
}

/// The token the color strategy aims at, or `None` when no token can be hit.
pub fn select_color_target(frog: &Frog, state: &GameState) -> (r: Option<usize>)
    requires
        frog.wf(),
        state.wf(),
    ensures
        r.is_some() == some_visible(*frog, *state),
        r.is_some() ==> is_color_target(*frog, *state, r.unwrap() as int),
        r.is_some() ==> r.unwrap() < state.balls@.len(),
{
    let ghost runs = rle(state.balls@);
    let groups = run_groups(&state.balls);
    let mut g: usize = 0;
    while g < groups.len()
        invariant
            frog.wf(),
            state.wf(),
            runs == rle(state.balls@),
            is_rle(state.balls@, runs),
            g <= groups@.len(),
            groups@.len() == runs.len(),
            forall|k: int| 0 <= k < runs.len() ==> groups@.contains(#[trigger] runs[k]),
            forall|m: int| 0 <= m < groups@.len() ==> runs.contains(#[trigger] groups@[m]),
            forall|a: int, b: int| 0 <= a < b < groups@.len() ==> ranks_before(#[trigger] groups@[a], #[trigger] groups@[b]),
            forall|p: int| 0 <= p < g ==> !run_qualifies(*frog, *state, #[trigger] groups@[p]),
        decreases groups@.len() - g,
    {
        let (color, count, first) = groups[g];
        assert(runs.contains(groups@[g as int]));
        let ghost k0 = choose|k: int| 0 <= k < runs.len() && runs[k] == groups@[g as int];
        proof {
            lemma_run_end_bound(state.balls@, runs, k0);
        }
        if color == frog.active_ball.color {
            if let Some(j) = first_visible_in(frog, state, first, first + count) {
                proof {
                    assert(run_qualifies(*frog, *state, runs[k0]));
                    assert forall|k2: int|
                        0 <= k2 < runs.len() && k2 != k0 && run_qualifies(*frog, *state, #[trigger] runs[k2])
                            implies ranks_before(runs[k0], runs[k2]) by {
                        assert(groups@.contains(runs[k2]));
                        let q_at = choose|p: int| 0 <= p < groups@.len() && groups@[p] == runs[k2];
                        if q_at < g {
                            assert(!run_qualifies(*frog, *state, groups@[q_at]));
                        } else if q_at == g {
                            if k2 < k0 {
                                lemma_run_end_bound(state.balls@, runs, k2);
                                assert(runs[k2].1 >= 1);
                            } else {
                                lemma_run_end_bound(state.balls@, runs, k0);
                                assert(runs[k0].1 >= 1);
                            }
                        } else {
                            assert(ranks_before(groups@[g as int], groups@[q_at]));
                        }
                    }
                    assert(is_color_target(*frog, *state, j as int));
                }
                return Some(j);
            }
        }
        assert(!run_qualifies(*frog, *state, groups@[g as int]));
        g += 1;
    }
    proof {
        assert forall|k: int| 0 <= k < runs.len() implies !run_qualifies(*frog, *state, #[trigger] runs[k]) by {
            let p = choose|p: int| 0 <= p < groups@.len() && groups@[p] == runs[k];
            assert(groups@.contains(runs[k]));
            assert(!run_qualifies(*frog, *state, groups@[p]));
        }
    }
    last_visible(frog, state)
}

/// The token the pattern strategy aims at, or `None` when no token can be
/// hit.
pub fn select_palindrome_target(frog: &Frog, state: &GameState) -> (r: Option<usize>)
    requires
        frog.wf(),
        state.wf(),
    ensures
        r.is_some() == some_visible(*frog, *state),
        r.is_some() ==> is_palindrome_target(*frog, *state, r.unwrap() as int),
        r.is_some() ==> r.unwrap() < state.balls@.len(),
{
    let ghost runs = rle(state.balls@);
    let pats = find_palidromes(state);
    let n = pats.len();
    let mut best: Option<(usize, u64)> = None;
    let mut i: usize = 0;
    while i < n
        invariant
            frog.wf(),
            state.wf(),
            runs == rle(state.balls@),
            is_rle(state.balls@, runs),
            n == pats@.len(),
            n == runs.len(),
            i <= n,
            forall|q: int| 0 <= q < n ==> is_pattern(runs, q, (#[trigger] pats@[q]).center, pats@[q].sequence@),
            forall|q: int| 0 <= q < n ==> (#[trigger] pats@[q]).sequence@.len() <= crate::model::MAX_BALLS,
            best.is_none() ==> forall|q: int| 0 <= q < i ==> !pattern_qualifies(*frog, *state, runs, q),
            best.is_some() ==> {
                let (bi, bs) = best.unwrap();
                &&& bi < i
                &&& pattern_qualifies(*frog, *state, runs, bi as int)
                &&& bs == breaking_score(pattern_of(runs, bi as int))
                &&& forall|q: int|
                    0 <= q < i && pattern_qualifies(*frog, *state, runs, q) ==> breaking_score(pattern_of(runs, q)) <= bs
                &&& forall|q: int|
                    0 <= q < bi && pattern_qualifies(*frog, *state, runs, q) ==> breaking_score(pattern_of(runs, q)) < bs
            },
        decreases n - i,
    {
        let center = pats[i].center;
        proof {
            lemma_run_end_bound(state.balls@, runs, i as int);
            assert(is_pattern(runs, i as int, pats@[i as int].center, pats@[i as int].sequence@));
            lemma_pattern_unique(runs, i as int, center, pats@[i as int].sequence@, pattern_of(runs, i as int));
        }
        if state.balls[center].color == frog.active_ball.color && vis_exec(frog, state, center) {
            let score = pats[i].get_breaking_len();
            let better = match best {
                Some((_, bs)) => score > bs,
                None => true,
            };
            if better {
                best = Some((i, score));
            }
        }
        i += 1;
    }
    match best {
        Some((bi, _)) => {
            proof {
                lemma_run_end_bound(state.balls@, runs, bi as int);
                assert(runs[bi as int].1 >= 1);
                assert(is_palindrome_target(*frog, *state, pats@[bi as int].center as int));
            }
            Some(pats[bi].center)
        },
        None => last_visible(frog, state),
    }
}

/// What the color strategy does, from the tokens, the pending shots before
/// (`memo`) and after (`memo_after`) and the time `now`: nothing and no
/// change when there are no tokens; otherwise the landed and expired shots
/// are dropped, and then nothing more happens when no token can be hit, or
/// it shoots at the aim point for its target and records the shot.
pub open spec fn color_move(frog: Frog, state: GameState, memo: Seq<Shot>, now: u64, memo_after: Seq<Shot>, r: BotMove) -> bool {
    if state.balls@.len() == 0 {
        r == BotMove::Nothing && memo_after == memo
    } else {
        let pruned = memo.filter(pending_pred(state.balls@, now));
        if !some_visible(frog, state) {
            r == BotMove::Nothing && memo_after == pruned
        } else {
            exists|t: int|
                {
                    &&& is_color_target(frog, state, t)
                    &&& r == BotMove::Shoot(predict_spec(frog, state, t, pruned).0)
                    &&& memo_after == pruned.push(
                        Shot {
                            ball_id: frog.active_ball.id,
                            target_id: state.balls@[t].id,
                            shot_time: now,
                            expected_travel_time: predict_spec(frog, state, t, pruned).1,
                        },
                    )
                }
        }
    }
}

/// What the pattern strategy does: nothing with fewer than four tokens or
/// when no token can be hit, else it shoots at the aim point for its target.
pub open spec fn palindrome_move(frog: Frog, state: GameState, memo: Seq<Shot>, r: BotMove) -> bool {
    if state.balls@.len() < 4 || !some_visible(frog, state) {
        r == BotMove::Nothing
    } else {
        exists|t: int|
            is_palindrome_target(frog, state, t) && r == BotMove::Shoot(predict_spec(frog, state, t, memo).0)
    }
}

/// Color strategy: aim at a run of the active color, the larger the better,
/// and record the shot in `memo`.
pub fn suggest_shot_color(frog: &Frog, state: &GameState, memo: &mut Vec<Shot>, now: u64) -> (r: BotMove)
    requires
        frog.wf(),
        state.wf(),
    ensures
        color_move(*frog, *state, old(memo)@, now, final(memo)@, r),
{
    if state.balls.len() == 0 {
        return BotMove::Nothing;
    }
    prune_memo(memo, &state.balls, now);
    match select_color_target(frog, state) {
        None => BotMove::Nothing,
        Some(t) => {
            let (aim, travel) = adjust_for_travel_time(frog, state, t, memo.as_slice());
            let ghost pruned = memo@;
            memo.push(
                Shot {
                    ball_id: frog.active_ball.id,
                    target_id: state.balls[t].id,
                    shot_time: now,
                    expected_travel_time: travel,
                },
            );
            assert(is_color_target(*frog, *state, t as int) && memo@ == pruned.push(
                Shot {
                    ball_id: frog.active_ball.id,
                    target_id: state.balls@[t as int].id,
                    shot_time: now,
                    expected_travel_time: predict_spec(*frog, *state, t as int, pruned).1,
                },
            ));
            BotMove::Shoot(aim)
        },
    }
}

/// Pattern strategy: aim at the center of the pattern whose clearing
/// cascades furthest. Pending shots are read, not updated.
pub fn suggest_shot_palidrome_simple(frog: &Frog, state: &GameState, memo: &[Shot]) -> (r: BotMove)
    requires
        frog.wf(),
        state.wf(),
    ensures
        palindrome_move(*frog, *state, memo@, r),
{
    if state.balls.len() < 4 {
        return BotMove::Nothing;
    }
    match select_palindrome_target(frog, state) {
        None => BotMove::Nothing,
        Some(t) => {
            let (aim, _) = adjust_for_travel_time(frog, state, t, memo);
            BotMove::Shoot(aim)
        },
    }
}

/// One decision with the chosen strategy.
pub fn suggest_shot(frog: &Frog, state: &GameState, mode: BotMode, memo: &mut Vec<Shot>, now: u64) -> (r: BotMove)
    requires
        frog.wf(),
        state.wf(),
    ensures
        mode == BotMode::ColorBot ==> color_move(*frog, *state, old(memo)@, now, final(memo)@, r),
        mode == BotMode::PalindromeBreaker ==> palindrome_move(*frog, *state, old(memo)@, r)
            && final(memo)@ == old(memo)@,
{
    match mode {
        BotMode::ColorBot => suggest_shot_color(frog, state, memo, now),
        BotMode::PalindromeBreaker => suggest_shot_palidrome_simple(frog, state, memo.as_slice()),
    }
}

/// The prediction depends on the shooter, the snapshot, the target and the
/// pending shots alone: equal inputs give the same aim point and flight time.
pub proof fn lemma_predict_deterministic(
    frog1: Frog,
    frog2: Frog,
    state1: GameState,
    state2: GameState,
    t: int,
    memo1: Seq<Shot>,
    memo2: Seq<Shot>,
)
    requires
        frog1 == frog2,
        state1 == state2,
        memo1 == memo2,
    ensures
        predict_spec(frog1, state1, t, memo1) == predict_spec(frog2, state2, t, memo2),
{
}

} // verus!
