//! Software-implemented movement: splitting a relative move into a sequence
//! of small `km.move` steps that add up to the whole move.

use std::time::Duration;

use vstd::prelude::*;
use vstd::arithmetic::div_mod::{lemma_div_by_multiple, lemma_div_is_ordered};
use vstd::arithmetic::mul::lemma_mul_inequality;

use crate::batch::ExtrasStep;
use crate::Button;

verus! {

/// Magnitude of the position reached after `i` of `n` equal steps towards a
/// target of magnitude `m`, rounded down.
pub open spec fn reach(m: int, i: int, n: int) -> int {
    (m * i) / n
}

/// Signed position after `i` of `n` steps towards `v`, rounded toward zero.
pub open spec fn interp(v: int, i: int, n: int) -> int {
    if v >= 0 {
        reach(v, i, n)
    } else {
        -reach(-v, i, n)
    }
}

/// Number of steps a smooth move takes: at least one.
pub open spec fn step_count(steps: u32) -> int {
    if steps == 0 {
        1
    } else {
        steps as int
    }
}

/// The relative moves of a smooth move to `(x, y)` in `n` steps: step `i`
/// goes from the rounded `i`-th point of the straight line to the rounded
/// `i + 1`-th.
pub open spec fn smooth_delta(x: int, y: int, n: int, i: int) -> (int, int) {
    (interp(x, i + 1, n) - interp(x, i, n), interp(y, i + 1, n) - interp(y, i, n))
}

/// Total of the moves in `d`, per axis.
pub open spec fn total_move(d: Seq<(i32, i32)>) -> (int, int)
    decreases d.len(),
{
    if d.len() == 0 {
        (0, 0)
    } else {
        let t = total_move(d.drop_last());
        (t.0 + d.last().0, t.1 + d.last().1)
    }
}

proof fn lemma_reach(m: int, i: int, n: int)
    requires
        0 <= m,
        0 <= i < n,
    ensures
        0 <= reach(m, i, n) <= reach(m, i + 1, n) <= m,
{
    lemma_mul_inequality(i, i + 1, m);
    lemma_mul_inequality(i + 1, n, m);
    assert(m * i == i * m && m * (i + 1) == (i + 1) * m && m * n == n * m) by (nonlinear_arith);
    assert(0 <= m * i) by (nonlinear_arith)
        requires
            0 <= m,
            0 <= i,
    ;
    lemma_div_is_ordered(0, m * i, n);
    lemma_div_is_ordered(m * i, m * (i + 1), n);
    lemma_div_is_ordered(m * (i + 1), m * n, n);
    lemma_div_by_multiple(m, n);
    assert(0int / n == 0);
}

/// Position after `i` of `n` steps towards `v`.
fn position(v: i32, i: u32, n: u32) -> (p: i64)
    requires
        0 <= i <= n,
        n >= 1,
    ensures
        p == interp(v as int, i as int, n as int),
{
    let m: u64 = if v < 0 {
        (-(v as i64)) as u64
    } else {
        v as u64
    };
    assert(m * i <= 0x8000_0000 * 0xffff_ffff) by (nonlinear_arith)
        requires
            m <= 0x8000_0000,
            i <= 0xffff_ffff,
    ;
    let q = (m * (i as u64)) / (n as u64);
    assert(q <= m) by {
        if i < n {
            lemma_reach(m as int, i as int, n as int);
        } else {
            lemma_div_by_multiple(m as int, n as int);
            assert(m * i == m * n);
        }
    }
    if v < 0 {
        -(q as i64)
    } else {
        q as i64
    }
}

/// The relative moves of a smooth move to `(x, y)` over `steps` steps (one
/// step when `steps` is 0).
pub fn smooth_steps(x: i32, y: i32, steps: u32) -> (d: Vec<(i32, i32)>)
    ensures
        d@.len() == step_count(steps),
        forall|i: int|
            0 <= i < d@.len() ==> (d@[i].0 as int, d@[i].1 as int) == smooth_delta(
                x as int,
                y as int,
                step_count(steps),
                i,
            ),
{
    let n: u32 = if steps == 0 {
        1
    } else {
        steps
    };
    let mut out: Vec<(i32, i32)> = Vec::new();
    let mut i: u32 = 0;
    while i < n
        invariant
            n == step_count(steps),
            0 <= i <= n,
            out@.len() == i,
            forall|k: int|
                0 <= k < i ==> (out@[k].0 as int, out@[k].1 as int) == smooth_delta(
                    x as int,
                    y as int,
                    n as int,
                    k,
                ),
        decreases n - i,
    {
        let x0 = position(x, i, n);
        let x1 = position(x, i + 1, n);
        let y0 = position(y, i, n);
        let y1 = position(y, i + 1, n);
        proof {
            if x >= 0 {
                lemma_reach(x as int, i as int, n as int);
            } else {
                lemma_reach(-x, i as int, n as int);
            }
            if y >= 0 {
                lemma_reach(y as int, i as int, n as int);
            } else {
                lemma_reach(-y, i as int, n as int);
            }
        }
        out.push(((x1 - x0) as i32, (y1 - y0) as i32));
        i = i + 1;
    }
    out
}

/// A smooth move ends exactly at its target: its steps add up to `(x, y)`.
pub proof fn law_smooth_steps_reach_target(x: i32, y: i32, steps: u32, d: Seq<(i32, i32)>)
    requires
        d.len() == step_count(steps),
        forall|i: int|
            0 <= i < d.len() ==> (d[i].0 as int, d[i].1 as int) == smooth_delta(
                x as int,
                y as int,
                step_count(steps),
                i,
            ),
    ensures
        total_move(d) == (x as int, y as int),
{
    let n = step_count(steps);
    lemma_total_prefix(x as int, y as int, n, d, n);
    assert(d.take(n) =~= d);
    assert(interp(x as int, n, n) == x) by {
        if x >= 0 {
            lemma_div_by_multiple(x as int, n);
        } else {
            lemma_div_by_multiple(-x, n);
        }
    }
    assert(interp(y as int, n, n) == y) by {
        if y >= 0 {
            lemma_div_by_multiple(y as int, n);
        } else {
            lemma_div_by_multiple(-y, n);
        }
    }
}

proof fn lemma_total_prefix(x: int, y: int, n: int, d: Seq<(i32, i32)>, k: int)
    requires
        n >= 1,
        d.len() == n,
        0 <= k <= n,
        forall|i: int|
            0 <= i < d.len() ==> (d[i].0 as int, d[i].1 as int) == smooth_delta(x, y, n, i),
    ensures
        total_move(d.take(k)) == (interp(x, k, n), interp(y, k, n)),
    decreases k,
{
    if k == 0 {
        assert(interp(x, 0, n) == 0 && interp(y, 0, n) == 0) by {
            assert(x * 0 == 0 && -x * 0 == 0 && y * 0 == 0 && -y * 0 == 0);
        }
        assert(d.take(0) =~= Seq::<(i32, i32)>::empty());
    } else {
        lemma_total_prefix(x, y, n, d, k - 1);
        assert(d.take(k).drop_last() =~= d.take(k - 1));
        assert(d.take(k).last() == d[k - 1]);
        assert((d[k - 1].0 as int, d[k - 1].1 as int) == smooth_delta(x, y, n, k - 1));
    }
}


/// One timed device action of a library-implemented operation.
#[derive(Debug, Clone, Copy, PartialEq, Eq)]
pub enum TimedAction {
    /// Force the button down.
    Press(Button),
    /// Release the button (without overriding a physical press).
    Release(Button),
    /// Relative move.
    Move(i32, i32),
    /// Wait.
    Sleep(Duration),
}

/// The steps of a smooth move, as 32-bit moves.
pub open spec fn smooth_path(x: i32, y: i32, steps: u32) -> Seq<(i32, i32)> {
    Seq::new(
        step_count(steps) as nat,
        |i: int|
            (
                smooth_delta(x as int, y as int, step_count(steps), i).0 as i32,
                smooth_delta(x as int, y as int, step_count(steps), i).1 as i32,
            ),
    )
}

/// A click: press, hold, release.
pub open spec fn click_actions(button: Button, hold: Duration) -> Seq<TimedAction> {
    seq![TimedAction::Press(button), TimedAction::Sleep(hold), TimedAction::Release(button)]
}

/// `n` clicks with a wait of `interval` between two clicks.
pub open spec fn clicks_actions(button: Button, hold: Duration, interval: Duration, n: nat) -> Seq<
    TimedAction,
>
    decreases n,
{
    if n == 0 {
        Seq::empty()
    } else if n == 1 {
        click_actions(button, hold)
    } else {
        clicks_actions(button, hold, interval, (n - 1) as nat) + seq![TimedAction::Sleep(interval)]
            + click_actions(button, hold)
    }
}

/// Each move of `d` followed by a wait of `interval`.
pub open spec fn moves_actions(d: Seq<(i32, i32)>, interval: Duration) -> Seq<TimedAction>
    decreases d.len(),
{
    if d.len() == 0 {
        Seq::empty()
    } else {
        moves_actions(d.drop_last(), interval) + seq![
            TimedAction::Move(d.last().0, d.last().1),
            TimedAction::Sleep(interval),
        ]
    }
}

/// A smooth move to each waypoint in turn.
pub open spec fn pattern_actions(waypoints: Seq<(i32, i32)>, steps: u32, interval: Duration) -> Seq<
    TimedAction,
>
    decreases waypoints.len(),
{
    if waypoints.len() == 0 {
        Seq::empty()
    } else {
        pattern_actions(waypoints.drop_last(), steps, interval) + moves_actions(
            smooth_path(waypoints.last().0, waypoints.last().1, steps),
            interval,
        )
    }
}

/// The timed actions that an extras operation performs, in order.
pub open spec fn step_actions(step: ExtrasStep) -> Seq<TimedAction> {
    match step {
        ExtrasStep::Click { button, hold } => click_actions(button, hold),
        ExtrasStep::ClickSequence { button, hold, count, interval } => clicks_actions(
            button,
            hold,
            interval,
            count as nat,
        ),
        ExtrasStep::MoveSmooth { x, y, steps, interval } => moves_actions(
            smooth_path(x, y, steps),
            interval,
        ),
        ExtrasStep::MovePattern { waypoints, steps, interval } => pattern_actions(
            waypoints@,
            steps,
            interval,
        ),
        ExtrasStep::Drag { button, x, y, steps, interval } => seq![TimedAction::Press(button)]
            + moves_actions(smooth_path(x, y, steps), interval) + seq![TimedAction::Release(button)],
    }
}

/// The steps of a smooth move, as a sequence of 32-bit moves.
fn smooth_moves(x: i32, y: i32, steps: u32, interval: Duration) -> (r: Vec<TimedAction>)
    ensures
        r@ == moves_actions(smooth_path(x, y, steps), interval),
{
    let d = smooth_steps(x, y, steps);
    let ghost path = smooth_path(x, y, steps);
    proof {
        assert(d@ =~= path);
    }
    let mut out: Vec<TimedAction> = Vec::new();
    let mut i: usize = 0;
    while i < d.len()
        invariant
            d@ == path,
            0 <= i <= d@.len(),
            out@ == moves_actions(path.take(i as int), interval),
        decreases d@.len() - i,
    {
        proof {
            assert(path.take(i + 1).drop_last() =~= path.take(i as int));
            if i == 0 {
                assert(path.take(0) =~= Seq::<(i32, i32)>::empty());
            }
        }
        let (dx, dy) = d[i];
        out.push(TimedAction::Move(dx, dy));
        out.push(TimedAction::Sleep(interval));
        i = i + 1;
    }
    proof {
        assert(path.take(d@.len() as int) =~= path);
    }
    out
}

/// The timed actions that an extras operation performs, in order.
pub fn extras_actions(step: ExtrasStep) -> (r: Vec<TimedAction>)
    ensures
        r@ == step_actions(step),
{
    match step {
        ExtrasStep::Click { button, hold } => {
            let mut out: Vec<TimedAction> = Vec::new();
            out.push(TimedAction::Press(button));
            out.push(TimedAction::Sleep(hold));
            out.push(TimedAction::Release(button));
            proof {
                assert(out@ =~= click_actions(button, hold));
            }
            out
        },
        ExtrasStep::ClickSequence { button, hold, count, interval } => {
            let mut out: Vec<TimedAction> = Vec::new();
            let mut i: u32 = 0;
            while i < count
                invariant
                    0 <= i <= count,
                    out@ == clicks_actions(button, hold, interval, i as nat),
                decreases count - i,
            {
                if i > 0 {
                    out.push(TimedAction::Sleep(interval));
                }
                out.push(TimedAction::Press(button));
                out.push(TimedAction::Sleep(hold));
                out.push(TimedAction::Release(button));
                proof {
                    if i == 0 {
                        assert(out@ =~= clicks_actions(button, hold, interval, 1));
                    } else {
                        assert(out@ =~= clicks_actions(button, hold, interval, (i + 1) as nat));
                    }
                }
                i = i + 1;
            }
            out
        },
        ExtrasStep::MoveSmooth { x, y, steps, interval } => smooth_moves(x, y, steps, interval),
        ExtrasStep::MovePattern { waypoints, steps, interval } => {
            let mut out: Vec<TimedAction> = Vec::new();
            let mut i: usize = 0;
            while i < waypoints.len()
                invariant
                    0 <= i <= waypoints@.len(),
                    out@ == pattern_actions(waypoints@.take(i as int), steps, interval),
                decreases waypoints@.len() - i,
            {
                proof {
                    assert(waypoints@.take(i + 1).drop_last() =~= waypoints@.take(i as int));
                    if i == 0 {
                        assert(waypoints@.take(0) =~= Seq::<(i32, i32)>::empty());
                    }
                }
                let (x, y) = waypoints[i];
                let mut moves = smooth_moves(x, y, steps, interval);
                out.append(&mut moves);
                i = i + 1;
            }
            proof {
                assert(waypoints@.take(waypoints@.len() as int) =~= waypoints@);
            }
            out
        },
        ExtrasStep::Drag { button, x, y, steps, interval } => {
            let mut out: Vec<TimedAction> = Vec::new();
            out.push(TimedAction::Press(button));
            let mut moves = smooth_moves(x, y, steps, interval);
            out.append(&mut moves);
            out.push(TimedAction::Release(button));
            proof {
                assert(out@ =~= seq![TimedAction::Press(button)] + moves_actions(
                    smooth_path(x, y, steps),
                    interval,
                ) + seq![TimedAction::Release(button)]);
            }
            out
        },
    }
}


/// The actions of moves `d`: move `k` at position `2k`, each followed by
/// the wait.
proof fn lemma_moves_actions(d: Seq<(i32, i32)>, interval: Duration)
    ensures
        moves_actions(d, interval).len() == 2 * d.len(),
        forall|k: int|
            #![trigger d[k]]
            0 <= k < d.len() ==> moves_actions(d, interval)[2 * k] == TimedAction::Move(d[k].0, d[k].1)
                && moves_actions(d, interval)[2 * k + 1] == TimedAction::Sleep(interval),
    decreases d.len(),
{
    if d.len() > 0 {
        let p = d.drop_last();
        lemma_moves_actions(p, interval);
        let a = moves_actions(d, interval);
        let pa = moves_actions(p, interval);
        assert forall|k: int| #![trigger d[k]] 0 <= k < d.len() implies a[2 * k] == TimedAction::Move(
            d[k].0,
            d[k].1,
        ) && a[2 * k + 1] == TimedAction::Sleep(interval) by {
            if k < d.len() - 1 {
                assert(d[k] == p[k]);
                assert(a[2 * k] == pa[2 * k]);
                assert(a[2 * k + 1] == pa[2 * k + 1]);
            }
        }
    }
}

/// A smooth move over `steps` steps (one when `steps` is 0) performs exactly
/// that many moves, the `k`-th from the rounded `k`-th point of the straight
/// line to `(x, y)` to the rounded `k + 1`-th, each followed by the interval.
pub proof fn law_move_smooth_actions(x: i32, y: i32, steps: u32, interval: Duration)
    ensures
        ({
            let a = step_actions(ExtrasStep::MoveSmooth { x, y, steps, interval });
            let n = step_count(steps);
            &&& n == if steps == 0 { 1 } else { steps as int }
            &&& a.len() == 2 * n
            &&& forall|k: int|
                #![trigger smooth_delta(x as int, y as int, n, k)]
                0 <= k < n ==> a[2 * k] == TimedAction::Move(
                    smooth_delta(x as int, y as int, n, k).0 as i32,
                    smooth_delta(x as int, y as int, n, k).1 as i32,
                ) && a[2 * k + 1] == TimedAction::Sleep(interval)
        }),
{
    let d = smooth_path(x, y, steps);
    let n = step_count(steps);
    lemma_moves_actions(d, interval);
    assert forall|k: int|
        #![trigger smooth_delta(x as int, y as int, n, k)]
        0 <= k < n implies moves_actions(d, interval)[2 * k] == TimedAction::Move(
            smooth_delta(x as int, y as int, n, k).0 as i32,
            smooth_delta(x as int, y as int, n, k).1 as i32,
        ) && moves_actions(d, interval)[2 * k + 1] == TimedAction::Sleep(interval) by {
        assert(d[k] == (
            smooth_delta(x as int, y as int, n, k).0 as i32,
            smooth_delta(x as int, y as int, n, k).1 as i32,
        ));
    }
}

/// A drag is a smooth move with the button held: it presses the button, makes
/// exactly the moves of the smooth move to `(x, y)` over `steps` steps, each
/// followed by the interval, and releases the button.
pub proof fn law_drag_is_held_smooth_move(
    button: Button,
    x: i32,
    y: i32,
    steps: u32,
    interval: Duration,
)
    ensures
        ({
            let a = step_actions(ExtrasStep::Drag { button, x, y, steps, interval });
            let n = step_count(steps);
            &&& a == seq![TimedAction::Press(button)] + step_actions(
                ExtrasStep::MoveSmooth { x, y, steps, interval },
            ) + seq![TimedAction::Release(button)]
            &&& a.len() == 2 * n + 2
            &&& a[0] == TimedAction::Press(button)
            &&& a[2 * n + 1] == TimedAction::Release(button)
            &&& forall|k: int|
                #![trigger smooth_delta(x as int, y as int, n, k)]
                0 <= k < n ==> a[2 * k + 1] == TimedAction::Move(
                    smooth_delta(x as int, y as int, n, k).0 as i32,
                    smooth_delta(x as int, y as int, n, k).1 as i32,
                ) && a[2 * k + 2] == TimedAction::Sleep(interval)
        }),
{
    let n = step_count(steps);
    let m = step_actions(ExtrasStep::MoveSmooth { x, y, steps, interval });
    let a = step_actions(ExtrasStep::Drag { button, x, y, steps, interval });
    law_move_smooth_actions(x, y, steps, interval);
    assert forall|k: int|
        #![trigger smooth_delta(x as int, y as int, n, k)]
        0 <= k < n implies a[2 * k + 1] == TimedAction::Move(
            smooth_delta(x as int, y as int, n, k).0 as i32,
            smooth_delta(x as int, y as int, n, k).1 as i32,
        ) && a[2 * k + 2] == TimedAction::Sleep(interval) by {
        let pre = seq![TimedAction::Press(button)];
        assert(a == pre + m + seq![TimedAction::Release(button)]);
        assert(m.len() == 2 * n);
        assert(m[2 * k] == TimedAction::Move(
            smooth_delta(x as int, y as int, n, k).0 as i32,
            smooth_delta(x as int, y as int, n, k).1 as i32,
        ));
        assert(m[2 * k + 1] == TimedAction::Sleep(interval));
        assert((pre + m)[2 * k + 1] == m[2 * k]);
        assert((pre + m)[2 * k + 2] == m[2 * k + 1]);
        assert(a[2 * k + 1] == (pre + m)[2 * k + 1]);
        assert(a[2 * k + 2] == (pre + m)[2 * k + 2]);
    }
}

/// The actions of `n` clicks, by position.
proof fn lemma_clicks_actions(button: Button, hold: Duration, interval: Duration, n: nat)
    ensures
        clicks_actions(button, hold, interval, n).len() == if n == 0 { 0 } else { 4 * n - 1 },
        forall|j: int|
            0 <= j < clicks_actions(button, hold, interval, n).len() ==> {
                let a = #[trigger] clicks_actions(button, hold, interval, n)[j];
                &&& j % 4 == 0 ==> a == TimedAction::Press(button)
                &&& j % 4 == 1 ==> a == TimedAction::Sleep(hold)
                &&& j % 4 == 2 ==> a == TimedAction::Release(button)
                &&& j % 4 == 3 ==> a == TimedAction::Sleep(interval)
            },
    decreases n,
{
    if n >= 2 {
        lemma_clicks_actions(button, hold, interval, (n - 1) as nat);
        let p = clicks_actions(button, hold, interval, (n - 1) as nat);
        let a = clicks_actions(button, hold, interval, n);
        assert(p.len() == 4 * n - 5);
        assert forall|j: int| 0 <= j < a.len() implies {
            let e = #[trigger] a[j];
            &&& j % 4 == 0 ==> e == TimedAction::Press(button)
            &&& j % 4 == 1 ==> e == TimedAction::Sleep(hold)
            &&& j % 4 == 2 ==> e == TimedAction::Release(button)
            &&& j % 4 == 3 ==> e == TimedAction::Sleep(interval)
        } by {
            if j < p.len() {
                assert(a[j] == p[j]);
            } else {
                let t = j - (4 * n - 5);
                assert(j % 4 == (t + 3) % 4);
            }
        }
    }
}

/// A click sequence is `count` clicks, each pressed, held for `hold` and
/// released, with a wait of `interval` between two clicks and none after the
/// last; a single click is the sequence of one click.
pub proof fn law_click_sequence(button: Button, hold: Duration, count: u32, interval: Duration)
    ensures
        ({
            let a = step_actions(ExtrasStep::ClickSequence { button, hold, count, interval });
            &&& a.len() == if count == 0 { 0 } else { 4 * count - 1 }
            &&& forall|j: int|
                0 <= j < a.len() ==> {
                    &&& j % 4 == 0 ==> #[trigger] a[j] == TimedAction::Press(button)
                    &&& j % 4 == 1 ==> a[j] == TimedAction::Sleep(hold)
                    &&& j % 4 == 2 ==> a[j] == TimedAction::Release(button)
                    &&& j % 4 == 3 ==> a[j] == TimedAction::Sleep(interval)
                }
        }),
        step_actions(ExtrasStep::Click { button, hold }) == step_actions(
            ExtrasStep::ClickSequence { button, hold, count: 1, interval },
        ),
{
    lemma_clicks_actions(button, hold, interval, count as nat);
    reveal_with_fuel(clicks_actions, 2);
}


/// The actions of a move pattern through `waypoints`, by position.
proof fn lemma_pattern_actions(waypoints: Seq<(i32, i32)>, steps: u32, interval: Duration)
    ensures
        ({
            let a = pattern_actions(waypoints, steps, interval);
            let n = step_count(steps);
            &&& a.len() == 2 * n * waypoints.len()
            &&& forall|i: int, k: int|
                #![trigger smooth_delta(waypoints[i].0 as int, waypoints[i].1 as int, n, k)]
                0 <= i < waypoints.len() && 0 <= k < n ==> a[2 * n * i + 2 * k] == TimedAction::Move(
                    smooth_delta(waypoints[i].0 as int, waypoints[i].1 as int, n, k).0 as i32,
                    smooth_delta(waypoints[i].0 as int, waypoints[i].1 as int, n, k).1 as i32,
                ) && a[2 * n * i + 2 * k + 1] == TimedAction::Sleep(interval)
        }),
    decreases waypoints.len(),
{
    let n = step_count(steps);
    if waypoints.len() > 0 {
        let w = waypoints;
        let p = w.drop_last();
        let len = w.len() - 1;
        lemma_pattern_actions(p, steps, interval);
        let (x, y) = w.last();
        law_move_smooth_actions(x, y, steps, interval);
        let pa = pattern_actions(p, steps, interval);
        let m = step_actions(ExtrasStep::MoveSmooth { x, y, steps, interval });
        let a = pattern_actions(w, steps, interval);
        assert(a == pa + m);
        assert(2 * n * w.len() == 2 * n * len + 2 * n) by (nonlinear_arith)
            requires
                len == w.len() - 1,
        ;
        assert forall|i: int, k: int|
            #![trigger smooth_delta(w[i].0 as int, w[i].1 as int, n, k)]
            0 <= i < w.len() && 0 <= k < n implies a[2 * n * i + 2 * k] == TimedAction::Move(
                smooth_delta(w[i].0 as int, w[i].1 as int, n, k).0 as i32,
                smooth_delta(w[i].0 as int, w[i].1 as int, n, k).1 as i32,
            ) && a[2 * n * i + 2 * k + 1] == TimedAction::Sleep(interval) by {
            if i < len {
                assert(2 * n * i + 2 * k + 1 < 2 * n * len) by (nonlinear_arith)
                    requires
                        0 <= i < len,
                        0 <= k < n,
                ;
                assert(0 <= 2 * n * i) by (nonlinear_arith)
                    requires
                        0 <= i,
                        n >= 1,
                ;
                assert(w[i] == p[i]);
                assert(pa[2 * n * i + 2 * k] == TimedAction::Move(
                    smooth_delta(p[i].0 as int, p[i].1 as int, n, k).0 as i32,
                    smooth_delta(p[i].0 as int, p[i].1 as int, n, k).1 as i32,
                ));
                assert(pa[2 * n * i + 2 * k + 1] == TimedAction::Sleep(interval));
            } else {
                assert(2 * n * i == 2 * n * len);
                assert(m[2 * k] == TimedAction::Move(
                    smooth_delta(x as int, y as int, n, k).0 as i32,
                    smooth_delta(x as int, y as int, n, k).1 as i32,
                ));
                assert(m[2 * k + 1] == TimedAction::Sleep(interval));
            }
        }
    }
}


/// A move pattern makes, for each waypoint in turn, exactly the moves of the
/// smooth move to that waypoint: waypoint `i`, step `k` is the action at
/// position `2*n*i + 2*k`, followed by the interval.
pub proof fn law_move_pattern_actions(waypoints: Vec<(i32, i32)>, steps: u32, interval: Duration)
    ensures
        ({
            let w = waypoints@;
            let a = step_actions(ExtrasStep::MovePattern { waypoints, steps, interval });
            let n = step_count(steps);
            &&& a.len() == 2 * n * w.len()
            &&& forall|i: int, k: int|
                #![trigger smooth_delta(w[i].0 as int, w[i].1 as int, n, k)]
                0 <= i < w.len() && 0 <= k < n ==> a[2 * n * i + 2 * k] == TimedAction::Move(
                    smooth_delta(w[i].0 as int, w[i].1 as int, n, k).0 as i32,
                    smooth_delta(w[i].0 as int, w[i].1 as int, n, k).1 as i32,
                ) && a[2 * n * i + 2 * k + 1] == TimedAction::Sleep(interval)
        }),
{
    lemma_pattern_actions(waypoints@, steps, interval);
}

} // verus!
