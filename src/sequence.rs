//! Color runs of the token sequence and the symmetric run patterns around
//! each of them.

use vstd::prelude::*;
use crate::model::{Ball, BallColor, GameState, MAX_BALLS};

verus! {

/// A run: its color, its number of tokens and the index of its first token.
pub type Run = (BallColor, usize, usize);

/// `runs` splits `balls` into maximal blocks of one color, in path order.
pub open spec fn is_rle(balls: Seq<Ball>, runs: Seq<Run>) -> bool {
    &&& (runs.len() == 0 <==> balls.len() == 0)
    &&& runs.len() > 0 ==> runs[0].2 == 0
    &&& runs.len() > 0 ==> runs.last().2 + runs.last().1 == balls.len()
    &&& forall|k: int| 0 <= k < runs.len() ==> #[trigger] runs[k].1 >= 1
    &&& forall|k: int, j: int|
        0 <= k < runs.len() && runs[k].2 <= j < runs[k].2 + runs[k].1 ==> (#[trigger] balls[j]).color
            == (#[trigger] runs[k]).0
    &&& forall|k: int|
        0 <= k < runs.len() - 1 ==> (#[trigger] runs[k + 1]).2 == runs[k].2 + runs[k].1 && runs[k
            + 1].0 != runs[k].0
}

/// The run-length encoding of the colors of `balls`.
pub open spec fn rle(balls: Seq<Ball>) -> Seq<Run> {
    choose|runs: Seq<Run>| is_rle(balls, runs)
}

proof fn lemma_rle_unique_from(balls: Seq<Ball>, r1: Seq<Run>, r2: Seq<Run>, k: int)
    requires
        is_rle(balls, r1),
        is_rle(balls, r2),
        0 <= k,
        k < r1.len() || k < r2.len(),
        k < r1.len() && k < r2.len() ==> r1[k].2 == r2[k].2,
        k < r1.len() && k >= r2.len() ==> r1[k].2 == balls.len(),
        k < r2.len() && k >= r1.len() ==> r2[k].2 == balls.len(),
    ensures
        r1.len() == r2.len(),
        forall|m: int| k <= m < r1.len() ==> r1[m] == r2[m],
    decreases r1.len() + r2.len() - 2 * k,
{
    if k < r1.len() && k >= r2.len() {
        assert(r1[k].1 >= 1);
        lemma_run_end_bound(balls, r1, k);
        assert(false);
    } else if k < r2.len() && k >= r1.len() {
        assert(r2[k].1 >= 1);
        lemma_run_end_bound(balls, r2, k);
        assert(false);
    } else {
        let s = r1[k].2;
        assert(r1[k].1 >= 1 && r2[k].1 >= 1);
        lemma_run_end_bound(balls, r1, k);
        lemma_run_end_bound(balls, r2, k);
        assert(balls[s as int].color == r1[k].0);
        assert(balls[s as int].color == r2[k].0);
        let e1 = r1[k].2 + r1[k].1;
        let e2 = r2[k].2 + r2[k].1;
        if e1 < e2 {
            assert(k + 1 < r1.len());
            assert(r1[k + 1].1 >= 1);
            lemma_run_end_bound(balls, r1, k + 1);
            assert(balls[e1 as int].color == r1[k + 1].0);
            assert(balls[e1 as int].color == r2[k].0);
            assert(false);
        }
        if e2 < e1 {
            assert(k + 1 < r2.len());
            assert(r2[k + 1].1 >= 1);
            lemma_run_end_bound(balls, r2, k + 1);
            assert(balls[e2 as int].color == r2[k + 1].0);
            assert(balls[e2 as int].color == r1[k].0);
            assert(false);
        }
        assert(r1[k] == r2[k]);
        if k + 1 < r1.len() || k + 1 < r2.len() {
            lemma_rle_unique_from(balls, r1, r2, k + 1);
        }
    }
}

/// Every run ends within the sequence.
pub proof fn lemma_run_end_bound(balls: Seq<Ball>, runs: Seq<Run>, k: int)
    requires
        is_rle(balls, runs),
        0 <= k < runs.len(),
    ensures
        runs[k].2 + runs[k].1 <= balls.len(),
        forall|m: int| k < m < runs.len() ==> runs[k].2 + runs[k].1 <= #[trigger] runs[m].2,
    decreases runs.len() - k,
{
    if k + 1 < runs.len() {
        assert(runs[k + 1].2 == runs[k].2 + runs[k].1);
        lemma_run_end_bound(balls, runs, k + 1);
        assert(runs[k + 1].1 >= 1);
    } else {
        assert(runs[k] == runs.last());
    }
}

/// A sequence has one run-length encoding only.
pub proof fn lemma_rle_unique(balls: Seq<Ball>, r1: Seq<Run>, r2: Seq<Run>)
    requires
        is_rle(balls, r1),
        is_rle(balls, r2),
    ensures
        r1 == r2,
{
    if r1.len() == 0 || r2.len() == 0 {
        assert(r1.len() == 0 && r2.len() == 0);
        assert(r1 =~= r2);
    } else {
        lemma_rle_unique_from(balls, r1, r2, 0);
        assert(r1 =~= r2);
    }
}

/// An encoding that satisfies `is_rle` is `rle`.
pub proof fn lemma_rle_is(balls: Seq<Ball>, runs: Seq<Run>)
    requires
        is_rle(balls, runs),
    ensures
        rle(balls) == runs,
{
    assert(exists|r: Seq<Run>| is_rle(balls, r));
    lemma_rle_unique(balls, rle(balls), runs);
}

/// Merges consecutive tokens of one color into runs, in path order.
pub fn color_runs(balls: &Vec<Ball>) -> (r: Vec<Run>)
    ensures
        is_rle(balls@, r@),
        r@ == rle(balls@),
{
    let n = balls.len();
    let mut runs: Vec<Run> = Vec::new();
    let mut i: usize = 0;
    while i < n
        invariant
            n == balls@.len(),
            i <= n,
            (runs@.len() == 0 <==> i == 0),
            runs@.len() > 0 ==> runs@[0].2 == 0,
            runs@.len() > 0 ==> runs@.last().2 + runs@.last().1 == i,
            runs@.len() > 0 && i < n ==> balls@[i as int].color != runs@.last().0,
            forall|k: int| 0 <= k < runs@.len() ==> #[trigger] runs@[k].1 >= 1,
            forall|k: int, j: int|
                0 <= k < runs@.len() && runs@[k].2 <= j < runs@[k].2 + runs@[k].1
                    ==> (#[trigger] balls@[j]).color == (#[trigger] runs@[k]).0,
            forall|k: int|
                0 <= k < runs@.len() - 1 ==> (#[trigger] runs@[k + 1]).2 == runs@[k].2 + runs@[k].1
                    && runs@[k + 1].0 != runs@[k].0,
        decreases n - i,
    {
        let color = balls[i].color;
        let mut j: usize = i + 1;
        while j < n && balls[j].color == color
            invariant
                n == balls@.len(),
                i < j <= n,
                color == balls@[i as int].color,
                forall|m: int| i <= m < j ==> (#[trigger] balls@[m]).color == color,
            decreases n - j,
        {
            j += 1;
        }
        let ghost old_runs = runs@;
        runs.push((color, j - i, i));
        assert(forall|k: int| 0 <= k < old_runs.len() ==> runs@[k] == old_runs[k]);
        i = j;
    }
    proof {
        lemma_rle_is(balls@, runs@);
    }
    runs
}

/// `x` comes before `y` in the ranking of runs: more tokens first, and of
/// two runs of one size the later one on the path first.
pub open spec fn ranks_before(x: Run, y: Run) -> bool {
    x.1 > y.1 || (x.1 == y.1 && x.2 > y.2)
}

/// The runs of `balls`, largest first; of two runs of one size the one
/// further along the path comes first.
pub fn run_groups(balls: &Vec<Ball>) -> (r: Vec<Run>)
    ensures
        is_rle(balls@, rle(balls@)),
        r@.len() == rle(balls@).len(),
        forall|k: int| 0 <= k < rle(balls@).len() ==> r@.contains(#[trigger] rle(balls@)[k]),
        forall|m: int| 0 <= m < r@.len() ==> rle(balls@).contains(#[trigger] r@[m]),
        forall|a: int, b: int| 0 <= a < b < r@.len() ==> ranks_before(#[trigger] r@[a], #[trigger] r@[b]),
{
    let raw = color_runs(balls);
    let n = raw.len();
    let mut out: Vec<Run> = Vec::new();
    let mut k: usize = 0;
    while k < n
        invariant
            n == raw@.len(),
            is_rle(balls@, raw@),
            raw@ == rle(balls@),
            k <= n,
            out@.len() == k,
            forall|j: int| 0 <= j < k ==> out@.contains(#[trigger] raw@[j]),
            forall|m: int| 0 <= m < out@.len() ==> exists|j: int| 0 <= j < k && #[trigger] out@[m] == raw@[j],
            forall|a: int, b: int| 0 <= a < b < out@.len() ==> ranks_before(#[trigger] out@[a], #[trigger] out@[b]),
        decreases n - k,
    {
        let x = raw[k];
        proof {
            assert forall|m: int| 0 <= m < out@.len() implies (#[trigger] out@[m]).2 < x.2 by {
                let j = choose|j: int| 0 <= j < k && out@[m] == raw@[j];
                lemma_run_end_bound(balls@, raw@, j);
                assert(raw@[j].1 >= 1);
            }
        }
        let mut p: usize = 0;
        while p < out.len() && (out[p].1 > x.1 || (out[p].1 == x.1 && out[p].2 > x.2))
            invariant
                p <= out@.len(),
                forall|q: int| 0 <= q < p ==> ranks_before(#[trigger] out@[q], x),
            decreases out@.len() - p,
        {
            p += 1;
        }
        let ghost before = out@;
        out.insert(p, x);
        proof {
            assert(out@ == before.insert(p as int, x));
            assert forall|a: int, b: int| 0 <= a < b < out@.len() implies ranks_before(#[trigger] out@[a], #[trigger] out@[b]) by {
                if b < p {
                    assert(out@[a] == before[a] && out@[b] == before[b]);
                } else if b == p {
                    assert(out@[a] == before[a]);
                } else if a == p {
                    assert(out@[b] == before[b - 1]);
                    assert(!ranks_before(before[p as int], x));
                    if b - 1 > p {
                        assert(ranks_before(before[p as int], before[b - 1]));
                    }
                } else if a < p {
                    assert(out@[a] == before[a] && out@[b] == before[b - 1]);
                } else {
                    assert(out@[a] == before[a - 1] && out@[b] == before[b - 1]);
                }
            }
            assert forall|j: int| 0 <= j < k + 1 implies out@.contains(#[trigger] raw@[j]) by {
                if j == k {
                    assert(out@[p as int] == x);
                } else {
                    let m = choose|m: int| 0 <= m < before.len() && before[m] == raw@[j];
                    if m < p {
                        assert(out@[m] == raw@[j]);
                    } else {
                        assert(out@[m + 1] == raw@[j]);
                    }
                }
            }
            assert forall|m: int| 0 <= m < out@.len() implies exists|j: int| 0 <= j < k + 1 && #[trigger] out@[m] == raw@[j] by {
                if m == p {
                    assert(out@[m] == raw@[k as int]);
                } else if m < p {
                    assert(out@[m] == before[m]);
                } else {
                    assert(out@[m] == before[m - 1]);
                }
            }
        }
        k += 1;
    }
    proof {
        assert forall|m: int| 0 <= m < out@.len() implies rle(balls@).contains(#[trigger] out@[m]) by {
            let j = choose|j: int| 0 <= j < n && out@[m] == raw@[j];
        }
    }
    out
}

/// Runs `i - r` and `i + r` both exist and share a color.
pub open spec fn mirrored(runs: Seq<Run>, i: int, r: int) -> bool {
    &&& 0 <= i - r
    &&& i + r < runs.len()
    &&& runs[i - r].0 == runs[i + r].0
}

/// `layers` is the symmetric pattern around run `i`: the run itself, then,
/// outward, each pair of runs at equal distance that share a color, merged,
/// up to the first pair that does not.
pub open spec fn is_pattern(runs: Seq<Run>, i: int, center: usize, layers: Seq<(BallColor, u32)>) -> bool {
    &&& 0 <= i < runs.len()
    &&& layers.len() >= 1
    &&& center == runs[i].2
    &&& layers[0] == (runs[i].0, runs[i].1 as u32)
    &&& forall|r: int|
        1 <= r < layers.len() ==> mirrored(runs, i, r) && #[trigger] layers[r] == (
            runs[i - r].0,
            (runs[i - r].1 + runs[i + r].1) as u32,
        )
    &&& !mirrored(runs, i, layers.len() as int)
}

/// Half points earned by the layers from `k` outward: two for each layer of
/// more than three tokens, then one for the first layer that is not, where
/// the count stops.
pub open spec fn layer_points(layers: Seq<(BallColor, u32)>, k: int) -> nat
    decreases layers.len() - k,
{
    if k < 0 || k >= layers.len() {
        0
    } else if layers[k].1 > 3 {
        2 + layer_points(layers, k + 1)
    } else {
        1
    }
}

/// How deep a cascade clearing the center run sets off, in half points:
/// nothing when the center holds a single token, else two for the center and
/// the points of the layers around it.
pub open spec fn breaking_score(layers: Seq<(BallColor, u32)>) -> nat {
    if layers.len() == 0 || layers[0].1 <= 1 {
        0
    } else {
        2 + layer_points(layers, 1)
    }
}

/// A symmetric arrangement of runs around the run whose first token is
/// `center`, with the merged layers from the inside out.
#[derive(Debug)]
pub struct Palindrome {
    pub center: usize,
    pub sequence: Vec<(BallColor, u32)>,
}

impl Palindrome {
    /// The breaking score, in half points.
    pub fn get_breaking_len(&self) -> (r: u64)
        requires
            self.sequence@.len() <= MAX_BALLS,
        ensures
            r == breaking_score(self.sequence@),
    {
        let layers = &self.sequence;
        if layers.len() == 0 || layers[0].1 <= 1 {
            return 0;
        }
        let n = layers.len();
        let mut k: usize = 1;
        let mut count: u64 = 2;
        while k < n && layers[k].1 > 3
            invariant
                n == layers@.len(),
                n <= MAX_BALLS,
                1 <= k <= n,
                count == 2 * k,
                2 + layer_points(layers@, 1) == count + layer_points(layers@, k as int),
            decreases n - k,
        {
            count += 2;
            k += 1;
        }
        if k < n {
            count += 1;
        }
        count
    }
}

/// Every run starts at or after its own position in the encoding.
proof fn lemma_run_start_bound(balls: Seq<Ball>, runs: Seq<Run>, k: int)
    requires
        is_rle(balls, runs),
        0 <= k < runs.len(),
    ensures
        k <= runs[k].2,
    decreases k,
{
    if k > 0 {
        let j = k - 1;
        lemma_run_start_bound(balls, runs, j);
        assert(runs[j + 1].2 == runs[j].2 + runs[j].1);
        assert(runs[j].1 >= 1);
    }
}

/// The pattern around every run, in path order of the runs.
pub fn find_palidromes(balls: &GameState) -> (r: Vec<Palindrome>)
    requires
        balls.balls@.len() <= MAX_BALLS,
    ensures
        is_rle(balls.balls@, rle(balls.balls@)),
        r@.len() == rle(balls.balls@).len(),
        forall|i: int|
            0 <= i < r@.len() ==> is_pattern(rle(balls.balls@), i, (#[trigger] r@[i]).center, r@[i].sequence@),
        forall|i: int| 0 <= i < r@.len() ==> (#[trigger] r@[i]).sequence@.len() <= MAX_BALLS,
{
    let runs = color_runs(&balls.balls);
    let ghost bs = balls.balls@;
    let n = runs.len();
    proof {
        if n > 0 {
            lemma_run_start_bound(bs, runs@, n - 1);
            lemma_run_end_bound(bs, runs@, n - 1);
        }
    }
    let mut out: Vec<Palindrome> = Vec::new();
    let mut i: usize = 0;
    while i < n
        invariant
            n == runs@.len(),
            n <= MAX_BALLS,
            runs@ == rle(bs),
            is_rle(bs, runs@),
            bs == balls.balls@,
            bs.len() <= MAX_BALLS,
            i <= n,
            out@.len() == i,
            forall|q: int| 0 <= q < i ==> is_pattern(runs@, q, (#[trigger] out@[q]).center, out@[q].sequence@),
            forall|q: int| 0 <= q < i ==> (#[trigger] out@[q]).sequence@.len() <= MAX_BALLS,
        decreases n - i,
    {
        let (color, count, first) = runs[i];
        proof {
            lemma_run_end_bound(bs, runs@, i as int);
        }
        let mut sequence: Vec<(BallColor, u32)> = Vec::new();
        sequence.push((color, count as u32));
        let mut radius: usize = 1;
        while radius <= i && radius < n - i && runs[i - radius].0 == runs[i + radius].0
            invariant
                n == runs@.len(),
                n <= MAX_BALLS,
                is_rle(bs, runs@),
                bs.len() <= MAX_BALLS,
                i < n,
                1 <= radius <= n,
                sequence@.len() == radius,
                sequence@[0] == (runs@[i as int].0, runs@[i as int].1 as u32),
                forall|r: int| 1 <= r < sequence@.len() ==> mirrored(runs@, i as int, r),
                forall|r: int|
                    1 <= r < sequence@.len() ==> #[trigger] sequence@[r] == (
                        runs@[i - r].0,
                        (runs@[i - r].1 + runs@[i + r].1) as u32,
                    ),
            decreases n - radius,
        {
            let before = runs[i - radius];
            let after = runs[i + radius];
            proof {
                lemma_run_end_bound(bs, runs@, i - radius);
                lemma_run_end_bound(bs, runs@, i + radius);
                assert(before.1 + after.1 <= bs.len());
            }
            let ghost old_seq = sequence@;
            let merged: usize = before.1 + after.1;
            sequence.push((before.0, merged as u32));
            assert(mirrored(runs@, i as int, radius as int));
            assert forall|r: int| 1 <= r < sequence@.len() implies #[trigger] sequence@[r] == (
                runs@[i - r].0,
                (runs@[i - r].1 + runs@[i + r].1) as u32,
            ) by {
                if r < old_seq.len() {
                    assert(sequence@[r] == old_seq[r]);
                }
            }
            radius += 1;
        }
        let ghost old_out = out@;
        out.push(Palindrome { center: first, sequence });
        assert(forall|q: int| 0 <= q < old_out.len() ==> out@[q] == old_out[q]);
        i += 1;
    }
    out
}

} // verus!
