//! Tiebreaker records for a set of selected NFL teams: each selected team's
//! record against the other selected teams, against its division when all
//! selected teams share one, against its conference, and against the
//! opponents that every selected team has played.

use vstd::prelude::*;
use crate::games::{GameResult, Games, GameStatus, game_in_week, has_week, score_in_week, sorted_weeks, week_position};
use crate::nfl::TEAM_COUNT;

verus! {

/// A win-loss-tie record: wins, losses, ties.
pub type Record = (u32, u32, u32);

/// A record in mathematical integers; `None` when no finished game was counted,
/// as a record that was never created in a map of records.
pub type Tally = Option<(nat, nat, nat)>;

/// The record of one game for the side that scored `a` against `b`.
pub open spec fn outcome(a: i32, b: i32) -> (nat, nat, nat) {
    if a > b {
        (1, 0, 0)
    } else if a < b {
        (0, 1, 0)
    } else {
        (0, 0, 1)
    }
}

/// Two tallies added up; a missing tally adds nothing.
pub open spec fn plus(a: Tally, b: Tally) -> Tally {
    match a {
        None => b,
        Some(x) => match b {
            None => a,
            Some(y) => Some((x.0 + y.0, x.1 + y.1, x.2 + y.2)),
        },
    }
}

/// Every count of the tally fits in a `u32`.
pub open spec fn fits(a: Tally) -> bool {
    match a {
        None => true,
        Some(x) => x.0 <= u32::MAX && x.1 <= u32::MAX && x.2 <= u32::MAX,
    }
}

/// Every count of `a` is at most the one of `b`, and `b` exists where `a` does.
pub open spec fn below(a: Tally, b: Tally) -> bool {
    match a {
        None => true,
        Some(x) => match b {
            None => false,
            Some(y) => x.0 <= y.0 && x.1 <= y.1 && x.2 <= y.2,
        },
    }
}

/// A stored record as a tally.
pub open spec fn tally_of(r: Option<Record>) -> Tally {
    match r {
        None => None,
        Some(x) => Some((x.0 as nat, x.1 as nat, x.2 as nat)),
    }
}

/// `n` copies of a tally added up.
pub open spec fn repeat(n: nat, x: Tally) -> Tally
    decreases n,
{
    if n == 0 {
        None
    } else {
        plus(repeat((n - 1) as nat, x), x)
    }
}

/// The record of `t1` over the first `n` games of its cell against `t2`:
/// each finished game counts a win, a loss or a tie by the two sides' scores.
pub open spec fn cell_tally_upto(g: &Games, t1: int, t2: int, n: int) -> Tally
    decreases n,
{
    if n <= 0 {
        None
    } else {
        let prev = cell_tally_upto(g, t1, t2, n - 1);
        let game = g.cell(t1, t2)[n - 1];
        if game.status == GameStatus::Final {
            plus(prev, Some(outcome(game.score, score_in_week(g.cell(t2, t1), game.week))))
        } else {
            prev
        }
    }
}

/// The record of `t1` over all its finished games against `t2`.
pub open spec fn cell_tally(g: &Games, t1: int, t2: int) -> Tally {
    cell_tally_upto(g, t1, t2, g.cell(t1, t2).len() as int)
}

/// The record of `t1` against the first `n` opponents listed in `opps`.
pub open spec fn tally_over_upto(g: &Games, t1: int, opps: Seq<usize>, n: int) -> Tally
    decreases n,
{
    if n <= 0 {
        None
    } else {
        plus(tally_over_upto(g, t1, opps, n - 1), cell_tally(g, t1, opps[n - 1] as int))
    }
}

/// The record of `t1` against every opponent listed in `opps`, counted as often as listed.
pub open spec fn tally_over(g: &Games, t1: int, opps: Seq<usize>) -> Tally {
    tally_over_upto(g, t1, opps, opps.len() as int)
}

/// The record of `t1` against the teams `lo..hi` that `counted` marks.
pub open spec fn tally_range(g: &Games, t1: int, lo: int, hi: int, counted: Seq<bool>) -> Tally
    decreases hi - lo,
{
    if hi <= lo {
        None
    } else {
        let prev = tally_range(g, t1, lo, hi - 1, counted);
        if counted[hi - 1] {
            plus(prev, cell_tally(g, t1, hi - 1))
        } else {
            prev
        }
    }
}

/// How often `t` appears among the first `n` selected teams.
pub open spec fn occurrences_upto(teams: Seq<usize>, t: int, n: int) -> nat
    decreases n,
{
    if n <= 0 {
        0
    } else {
        occurrences_upto(teams, t, n - 1) + if teams[n - 1] == t { 1nat } else { 0nat }
    }
}

/// How often `t` appears among the selected teams.
pub open spec fn occurrences(teams: Seq<usize>, t: int) -> nat {
    occurrences_upto(teams, t, teams.len() as int)
}

/// Among the first `n` selected teams, how many have a game stored against `t`.
pub open spec fn play_count_upto(g: &Games, teams: Seq<usize>, t: int, n: int) -> nat
    decreases n,
{
    if n <= 0 {
        0
    } else {
        play_count_upto(g, teams, t, n - 1) + if g.cell(teams[n - 1] as int, t).len() > 0 {
            1nat
        } else {
            0nat
        }
    }
}

/// How many of the selected teams have a game stored against `t`.
pub open spec fn play_count(g: &Games, teams: Seq<usize>, t: int) -> nat {
    play_count_upto(g, teams, t, teams.len() as int)
}

/// The selected teams all belong to one division.
pub open spec fn same_division(teams: Seq<usize>) -> bool {
    teams.len() > 0 && forall|k: int| 0 <= k < teams.len() ==> #[trigger] teams[k] / 4 == teams[0] / 4
}

/// Every team counts.
pub open spec fn every_team() -> Seq<bool> {
    Seq::new(32, |t: int| true)
}

/// The opponents that every selected team has played: those played by exactly
/// `selected` of the selected teams, and by at least one.
pub open spec fn common_opponents(g: &Games, teams: Seq<usize>, selected: nat) -> Seq<bool> {
    Seq::new(32, |t: int| play_count(g, teams, t) > 0 && play_count(g, teams, t) == selected)
}

/// Record of `t` against the selected teams, added once per time `t` is selected.
pub open spec fn spec_head_to_head(g: &Games, teams: Seq<usize>, t: int) -> Tally {
    repeat(occurrences(teams, t), tally_over(g, t, teams))
}

/// Record of `t` against its own division, kept only when all selected teams share that division.
pub open spec fn spec_division_record(g: &Games, teams: Seq<usize>, t: int) -> Tally {
    repeat(
        occurrences(teams, t),
        if same_division(teams) {
            tally_range(g, t, 4 * (t / 4), 4 * (t / 4) + 4, every_team())
        } else {
            None
        },
    )
}

/// Record of `t` against the teams of its conference.
pub open spec fn spec_conference_record(g: &Games, teams: Seq<usize>, t: int) -> Tally {
    repeat(occurrences(teams, t), tally_range(g, t, 16 * (t / 16), 16 * (t / 16) + 16, every_team()))
}

/// Record of `t` against the opponents common to all selected teams.
pub open spec fn spec_common_games(g: &Games, teams: Seq<usize>, selected: nat, t: int) -> Tally {
    repeat(occurrences(teams, t), tally_range(g, t, 0, 32, common_opponents(g, teams, selected)))
}

/// Every tiebreaker record of every team fits in `u32` counts.
pub open spec fn tiebreakers_fit(g: &Games, teams: Seq<usize>, selected: nat) -> bool {
    forall|t: int|
        0 <= t < 32 ==> {
            &&& fits(#[trigger] spec_head_to_head(g, teams, t))
            &&& fits(spec_division_record(g, teams, t))
            &&& fits(spec_conference_record(g, teams, t))
            &&& fits(spec_common_games(g, teams, selected, t))
        }
}

proof fn lemma_plus_grows(a: Tally, b: Tally)
    ensures
        below(a, plus(a, b)),
        below(b, plus(a, b)),
{
}

proof fn lemma_below_trans(a: Tally, b: Tally, c: Tally)
    requires
        below(a, b),
        below(b, c),
    ensures
        below(a, c),
{
}

proof fn lemma_below_refl(a: Tally)
    ensures
        below(a, a),
{
}

proof fn lemma_cell_upto_mono(g: &Games, t1: int, t2: int, a: int, b: int)
    requires
        0 <= a <= b,
    ensures
        below(cell_tally_upto(g, t1, t2, a), cell_tally_upto(g, t1, t2, b)),
    decreases b - a,
{
    if a == b {
        lemma_below_refl(cell_tally_upto(g, t1, t2, a));
    } else {
        lemma_cell_upto_mono(g, t1, t2, a, b - 1);
        let prev = cell_tally_upto(g, t1, t2, b - 1);
        let game = g.cell(t1, t2)[b - 1];
        lemma_plus_grows(prev, Some(outcome(game.score, score_in_week(g.cell(t2, t1), game.week))));
        lemma_below_refl(prev);
        lemma_below_trans(cell_tally_upto(g, t1, t2, a), prev, cell_tally_upto(g, t1, t2, b));
    }
}

proof fn lemma_over_upto_mono(g: &Games, t1: int, opps: Seq<usize>, a: int, b: int)
    requires
        0 <= a <= b,
    ensures
        below(tally_over_upto(g, t1, opps, a), tally_over_upto(g, t1, opps, b)),
    decreases b - a,
{
    if a == b {
        lemma_below_refl(tally_over_upto(g, t1, opps, a));
    } else {
        lemma_over_upto_mono(g, t1, opps, a, b - 1);
        let prev = tally_over_upto(g, t1, opps, b - 1);
        lemma_plus_grows(prev, cell_tally(g, t1, opps[b - 1] as int));
        lemma_below_trans(tally_over_upto(g, t1, opps, a), prev, tally_over_upto(g, t1, opps, b));
    }
}

proof fn lemma_range_mono(g: &Games, t1: int, lo: int, a: int, b: int, counted: Seq<bool>)
    requires
        a <= b,
    ensures
        below(tally_range(g, t1, lo, a, counted), tally_range(g, t1, lo, b, counted)),
    decreases b - a,
{
    if a == b {
        lemma_below_refl(tally_range(g, t1, lo, a, counted));
    } else {
        lemma_range_mono(g, t1, lo, a, b - 1, counted);
        let prev = tally_range(g, t1, lo, b - 1, counted);
        if b - 1 >= lo {
            lemma_plus_grows(prev, cell_tally(g, t1, b - 1));
            lemma_below_refl(prev);
            lemma_below_trans(tally_range(g, t1, lo, a, counted), prev, tally_range(g, t1, lo, b, counted));
        } else {
            lemma_below_refl(tally_range(g, t1, lo, b, counted));
        }
    }
}

proof fn lemma_repeat_mono(a: nat, b: nat, x: Tally)
    requires
        a <= b,
    ensures
        below(repeat(a, x), repeat(b, x)),
    decreases b - a,
{
    if a == b {
        lemma_below_refl(repeat(a, x));
    } else {
        lemma_repeat_mono(a, (b - 1) as nat, x);
        lemma_plus_grows(repeat((b - 1) as nat, x), x);
        lemma_below_trans(repeat(a, x), repeat((b - 1) as nat, x), repeat(b, x));
    }
}

proof fn lemma_occurrences_mono(teams: Seq<usize>, t: int, a: int, b: int)
    requires
        0 <= a <= b,
    ensures
        occurrences_upto(teams, t, a) <= occurrences_upto(teams, t, b),
    decreases b - a,
{
    if a < b {
        lemma_occurrences_mono(teams, t, a, b - 1);
    }
}

/// A record seen from the other side: wins and losses swap.
pub open spec fn mirror(a: Tally) -> Tally {
    match a {
        None => None,
        Some(x) => Some((x.1, x.0, x.2)),
    }
}

proof fn lemma_same_weeks(a: Seq<GameResult>, b: Seq<GameResult>)
    requires
        sorted_weeks(a),
        sorted_weeks(b),
        forall|w: i32| has_week(a, w) <==> has_week(b, w),
    ensures
        a.len() == b.len(),
        forall|i: int| 0 <= i < a.len() ==> #[trigger] a[i].week == b[i].week,
    decreases a.len() + b.len(),
{
    if a.len() == 0 {
        if b.len() > 0 {
            assert(has_week(b, b[0].week));
        }
    } else if b.len() == 0 {
        assert(has_week(a, a[0].week));
    } else {
        let la = a.last().week;
        let lb = b.last().week;
        assert(has_week(a, la));
        assert(has_week(b, lb));
        let pa = choose|i: int| 0 <= i < a.len() && #[trigger] a[i].week == lb;
        let pb = choose|i: int| 0 <= i < b.len() && #[trigger] b[i].week == la;
        if pa < a.len() - 1 {
            assert(a[pa].week < a[a.len() - 1].week);
        }
        if pb < b.len() - 1 {
            assert(b[pb].week < b[b.len() - 1].week);
        }
        assert(la == lb);
        let a2 = a.drop_last();
        let b2 = b.drop_last();
        assert forall|w: i32| has_week(a2, w) <==> has_week(b2, w) by {
            if has_week(a2, w) {
                let i = choose|i: int| 0 <= i < a2.len() && #[trigger] a2[i].week == w;
                assert(a[i].week == w);
                assert(a[i].week < la);
                assert(has_week(b, w));
                let k = choose|k: int| 0 <= k < b.len() && #[trigger] b[k].week == w;
                assert(k != b.len() - 1);
                assert(b2[k].week == w);
            }
            if has_week(b2, w) {
                let i = choose|i: int| 0 <= i < b2.len() && #[trigger] b2[i].week == w;
                assert(b[i].week == w);
                assert(b[i].week < lb);
                assert(has_week(a, w));
                let k = choose|k: int| 0 <= k < a.len() && #[trigger] a[k].week == w;
                assert(k != a.len() - 1);
                assert(a2[k].week == w);
            }
        }
        lemma_same_weeks(a2, b2);
        assert forall|i: int| 0 <= i < a.len() implies #[trigger] a[i].week == b[i].week by {
            if i < a.len() - 1 {
                assert(a2[i] == a[i] && b2[i] == b[i]);
            }
        }
    }
}

proof fn lemma_position_of(c: Seq<GameResult>, i: int)
    requires
        sorted_weeks(c),
        0 <= i < c.len(),
    ensures
        has_week(c, c[i].week),
        game_in_week(c, c[i].week) == c[i],
{
    let w = c[i].week;
    assert(has_week(c, w));
    let p = week_position(c, w);
    if p < i {
        assert(c[p].week < c[i].week);
    } else if p > i {
        assert(c[i].week < c[p].week);
    }
}

proof fn lemma_mirror_upto(g: &Games, t1: int, t2: int, n: int)
    requires
        g.wf(),
        g.sides_agree(),
        0 <= t1 < 32,
        0 <= t2 < 32,
        0 <= n <= g.cell(t1, t2).len(),
        g.cell(t1, t2).len() == g.cell(t2, t1).len(),
        forall|i: int| 0 <= i < g.cell(t1, t2).len() ==> #[trigger] g.cell(t1, t2)[i].week == g.cell(t2, t1)[i].week,
    ensures
        cell_tally_upto(g, t1, t2, n) == mirror(cell_tally_upto(g, t2, t1, n)),
    decreases n,
{
    if n > 0 {
        lemma_mirror_upto(g, t1, t2, n - 1);
        let c12 = g.cell(t1, t2);
        let c21 = g.cell(t2, t1);
        let a = c12[n - 1];
        let b = c21[n - 1];
        assert(sorted_weeks(c12));
        assert(sorted_weeks(c21));
        assert(a.week == b.week);
        lemma_position_of(c12, n - 1);
        lemma_position_of(c21, n - 1);
        assert(has_week(c12, a.week));
        assert(game_in_week(c21, a.week).status == game_in_week(c12, a.week).status);
        assert(a.status == b.status);
        assert(score_in_week(c21, a.week) == b.score);
        assert(score_in_week(c12, b.week) == a.score);
    }
}

/// When both sides of every stored game have the same status, as they do for
/// games stored through `record_game`, a finished game counts as a win for one
/// side exactly when it counts as a loss for the other, and as a tie for both
/// otherwise: each team's record against another is the other's record
/// against it with wins and losses swapped.
pub proof fn law_records_mirror(g: &Games, t1: int, t2: int)
    requires
        g.wf(),
        g.sides_agree(),
        0 <= t1 < 32,
        0 <= t2 < 32,
    ensures
        cell_tally(g, t1, t2) == mirror(cell_tally(g, t2, t1)),
{
    let c12 = g.cell(t1, t2);
    let c21 = g.cell(t2, t1);
    assert(sorted_weeks(c12));
    assert(sorted_weeks(c21));
    assert forall|w: i32| has_week(c12, w) <==> has_week(c21, w) by {
        if has_week(c12, w) {
            assert(has_week(g.cell(t1, t2), w));
        }
        if has_week(c21, w) {
            assert(has_week(g.cell(t2, t1), w));
        }
    }
    lemma_same_weeks(c12, c21);
    lemma_mirror_upto(g, t1, t2, c12.len() as int);
}

/// With two teams selected, neither with games stored against itself, and both
/// sides of every stored game of the same status, each team's head-to-head
/// record is the other's with wins and losses swapped.
pub proof fn law_head_to_head_mirror(g: &Games, a: usize, b: usize)
    requires
        g.wf(),
        g.sides_agree(),
        a < 32,
        b < 32,
        a != b,
        g.cell(a as int, a as int).len() == 0,
        g.cell(b as int, b as int).len() == 0,
    ensures
        spec_head_to_head(g, seq![a, b], a as int) == mirror(spec_head_to_head(g, seq![a, b], b as int)),
{
    let teams = seq![a, b];
    assert(teams[0] == a && teams[1] == b);
    assert(occurrences_upto(teams, a as int, 0) == 0);
    assert(occurrences_upto(teams, b as int, 0) == 0);
    assert(occurrences_upto(teams, a as int, 1) == 1);
    assert(occurrences(teams, a as int) == 1);
    assert(occurrences_upto(teams, b as int, 1) == 0);
    assert(occurrences(teams, b as int) == 1);
    assert(cell_tally(g, a as int, a as int) is None);
    assert(cell_tally(g, b as int, b as int) is None);
    assert(tally_over_upto(g, a as int, teams, 0) is None);
    assert(tally_over_upto(g, b as int, teams, 0) is None);
    assert(tally_over_upto(g, a as int, teams, 1) == cell_tally(g, a as int, a as int));
    assert(tally_over(g, a as int, teams) == cell_tally(g, a as int, b as int));
    assert(tally_over_upto(g, b as int, teams, 1) == cell_tally(g, b as int, a as int));
    assert(tally_over(g, b as int, teams) == cell_tally(g, b as int, a as int));
    law_records_mirror(g, a as int, b as int);
    assert(repeat(0, tally_over(g, a as int, teams)) is None);
    assert(repeat(0, tally_over(g, b as int, teams)) is None);
    assert(repeat(1, tally_over(g, a as int, teams)) == tally_over(g, a as int, teams));
    assert(repeat(1, tally_over(g, b as int, teams)) == tally_over(g, b as int, teams));
}

/// The record of one game, for the side that scored `a` against `b`.
fn game_outcome(a: i32, b: i32) -> (r: Record)
    ensures
        tally_of(Some(r)) == Some(outcome(a, b)),
{
    if a < b {
        (0, 1, 0)
    } else if a == b {
        (0, 0, 1)
    } else {
        (1, 0, 0)
    }
}

/// Adds two stored records; a missing record adds nothing.
fn add_records(a: Option<Record>, b: Option<Record>) -> (r: Option<Record>)
    requires
        fits(plus(tally_of(a), tally_of(b))),
    ensures
        tally_of(r) == plus(tally_of(a), tally_of(b)),
{
    match a {
        None => b,
        Some(x) => match b {
            None => a,
            Some(y) => Some((x.0 + y.0, x.1 + y.1, x.2 + y.2)),
        },
    }
}

/// The record of `t1` over its finished games against `t2`.
fn cell_record(g: &Games, t1: usize, t2: usize) -> (r: Option<Record>)
    requires
        g.wf(),
        t1 < TEAM_COUNT,
        t2 < TEAM_COUNT,
        fits(cell_tally(g, t1 as int, t2 as int)),
    ensures
        tally_of(r) == cell_tally(g, t1 as int, t2 as int),
{
    let n = g.game_count(t1, t2);
    let mut acc: Option<Record> = None;
    let mut k: usize = 0;
    while k < n
        invariant
            g.wf(),
            t1 < TEAM_COUNT,
            t2 < TEAM_COUNT,
            n == g.cell(t1 as int, t2 as int).len(),
            fits(cell_tally(g, t1 as int, t2 as int)),
            k <= n,
            tally_of(acc) == cell_tally_upto(g, t1 as int, t2 as int, k as int),
        decreases n - k,
    {
        let game = g.game(t1, t2, k);
        proof {
            lemma_cell_upto_mono(g, t1 as int, t2 as int, k + 1, n as int);
        }
        if game.status == GameStatus::Final {
            assert(has_week(g.cell(t1 as int, t2 as int), game.week)) by {
                assert(g.cell(t1 as int, t2 as int)[k as int].week == game.week);
            }
            let other = g.score_in_week(t2, t1, game.week);
            let o = game_outcome(game.score, other);
            acc = add_records(acc, Some(o));
        }
        k = k + 1;
    }
    acc
}

/// The record of `t1` against every team listed in `opps`.
fn record_over(g: &Games, t1: usize, opps: &Vec<usize>) -> (r: Option<Record>)
    requires
        g.wf(),
        t1 < TEAM_COUNT,
        forall|k: int| 0 <= k < opps@.len() ==> #[trigger] opps@[k] < TEAM_COUNT,
        fits(tally_over(g, t1 as int, opps@)),
    ensures
        tally_of(r) == tally_over(g, t1 as int, opps@),
{
    let mut acc: Option<Record> = None;
    let mut k: usize = 0;
    while k < opps.len()
        invariant
            g.wf(),
            t1 < TEAM_COUNT,
            forall|k: int| 0 <= k < opps@.len() ==> #[trigger] opps@[k] < TEAM_COUNT,
            fits(tally_over(g, t1 as int, opps@)),
            k <= opps.len(),
            tally_of(acc) == tally_over_upto(g, t1 as int, opps@, k as int),
        decreases opps.len() - k,
    {
        proof {
            lemma_over_upto_mono(g, t1 as int, opps@, k + 1, opps.len() as int);
            lemma_plus_grows(tally_over_upto(g, t1 as int, opps@, k as int), cell_tally(g, t1 as int, opps@[k as int] as int));
        }
        let c = cell_record(g, t1, opps[k]);
        acc = add_records(acc, c);
        k = k + 1;
    }
    acc
}

/// The record of `t1` against the teams `lo..hi` that `counted` marks.
fn record_range(g: &Games, t1: usize, lo: usize, hi: usize, counted: &Vec<bool>) -> (r: Option<Record>)
    requires
        g.wf(),
        t1 < TEAM_COUNT,
        lo <= hi <= TEAM_COUNT,
        counted@.len() == TEAM_COUNT,
        fits(tally_range(g, t1 as int, lo as int, hi as int, counted@)),
    ensures
        tally_of(r) == tally_range(g, t1 as int, lo as int, hi as int, counted@),
{
    let mut acc: Option<Record> = None;
    let mut k: usize = lo;
    while k < hi
        invariant
            g.wf(),
            t1 < TEAM_COUNT,
            lo <= k <= hi <= TEAM_COUNT,
            counted@.len() == TEAM_COUNT,
            fits(tally_range(g, t1 as int, lo as int, hi as int, counted@)),
            tally_of(acc) == tally_range(g, t1 as int, lo as int, k as int, counted@),
        decreases hi - k,
    {
        proof {
            lemma_range_mono(g, t1 as int, lo as int, k + 1, hi as int, counted@);
            lemma_plus_grows(tally_range(g, t1 as int, lo as int, k as int, counted@), cell_tally(g, t1 as int, k as int));
        }
        if counted[k] {
            let c = cell_record(g, t1, k);
            acc = add_records(acc, c);
        }
        k = k + 1;
    }
    acc
}

/// The tiebreaker data of the standings page for the selected teams, each
/// vector indexed by team number.
#[derive(Clone, Debug, PartialEq, Eq)]
pub struct Tiebreakers {
    /// For each team, how many selected teams have played it or are scheduled to.
    pub play_count: Vec<usize>,
    /// Each selected team's record against the selected teams.
    pub head_to_head: Vec<Option<Record>>,
    /// Each selected team's record against its division, when all selected teams share it.
    pub division_record: Vec<Option<Record>>,
    /// Each selected team's record against the opponents that all selected teams played.
    pub common_games: Vec<Option<Record>>,
    /// Each selected team's record against its conference.
    pub conference_record: Vec<Option<Record>>,
}

/// `tb` holds, for every team, the play count and the tiebreaker records of
/// the selected teams `teams`, of which there are `selected`.
pub open spec fn tiebreakers_of(games: &Games, teams: Seq<usize>, selected: nat, tb: Tiebreakers) -> bool {
    &&& tb.play_count@.len() == TEAM_COUNT
    &&& tb.head_to_head@.len() == TEAM_COUNT
    &&& tb.division_record@.len() == TEAM_COUNT
    &&& tb.common_games@.len() == TEAM_COUNT
    &&& tb.conference_record@.len() == TEAM_COUNT
    &&& forall|t: int|
        0 <= t < 32 ==> {
            &&& #[trigger] tb.play_count@[t] == play_count(games, teams, t)
            &&& tally_of(tb.head_to_head@[t]) == spec_head_to_head(games, teams, t)
            &&& tally_of(tb.division_record@[t]) == spec_division_record(games, teams, t)
            &&& tally_of(tb.common_games@[t]) == spec_common_games(games, teams, selected, t)
            &&& tally_of(tb.conference_record@[t]) == spec_conference_record(games, teams, t)
        }
}

fn none_records() -> (v: Vec<Option<Record>>)
    ensures
        v@.len() == TEAM_COUNT,
        forall|t: int| 0 <= t < 32 ==> #[trigger] v@[t] is None,
{
    let mut v: Vec<Option<Record>> = Vec::new();
    let mut i: usize = 0;
    while i < TEAM_COUNT
        invariant
            i <= TEAM_COUNT,
            v@.len() == i,
            forall|t: int| 0 <= t < i ==> #[trigger] v@[t] is None,
        decreases TEAM_COUNT - i,
    {
        v.push(None);
        i = i + 1;
    }
    v
}

/// Counts, for each team, how many of the selected teams have a game stored against it.
fn play_counts(g: &Games, teams: &Vec<usize>) -> (pc: Vec<usize>)
    requires
        g.wf(),
        forall|k: int| 0 <= k < teams@.len() ==> #[trigger] teams@[k] < TEAM_COUNT,
    ensures
        pc@.len() == TEAM_COUNT,
        forall|t: int| 0 <= t < 32 ==> #[trigger] pc@[t] == play_count(g, teams@, t),
{
    let mut pc: Vec<usize> = Vec::new();
    let mut i: usize = 0;
    while i < TEAM_COUNT
        invariant
            i <= TEAM_COUNT,
            pc@.len() == i,
            forall|t: int| 0 <= t < i ==> #[trigger] pc@[t] == 0,
        decreases TEAM_COUNT - i,
    {
        pc.push(0);
        i = i + 1;
    }
    let mut k: usize = 0;
    while k < teams.len()
        invariant
            g.wf(),
            forall|k: int| 0 <= k < teams@.len() ==> #[trigger] teams@[k] < TEAM_COUNT,
            k <= teams.len(),
            pc@.len() == TEAM_COUNT,
            forall|t: int| 0 <= t < 32 ==> #[trigger] pc@[t] == play_count_upto(g, teams@, t, k as int),
            forall|t: int| 0 <= t < 32 ==> #[trigger] pc@[t] <= k,
        decreases teams.len() - k,
    {
        let team = teams[k];
        let mut opp: usize = 0;
        while opp < TEAM_COUNT
            invariant
                g.wf(),
                team < TEAM_COUNT,
                team == teams@[k as int],
                k < teams.len(),
                opp <= TEAM_COUNT,
                pc@.len() == TEAM_COUNT,
                forall|t: int| 0 <= t < opp ==> #[trigger] pc@[t] == play_count_upto(g, teams@, t, k + 1),
                forall|t: int| opp <= t < 32 ==> #[trigger] pc@[t] == play_count_upto(g, teams@, t, k as int),
                forall|t: int| 0 <= t < opp ==> #[trigger] pc@[t] <= k + 1,
                forall|t: int| opp <= t < 32 ==> #[trigger] pc@[t] <= k,
            decreases TEAM_COUNT - opp,
        {
            if g.game_count(team, opp) > 0 {
                let c = pc[opp];
                pc.set(opp, c + 1);
            }
            opp = opp + 1;
        }
        k = k + 1;
    }
    pc
}

/// Whether the selected teams all belong to one division.
fn all_in_one_division(teams: &Vec<usize>) -> (r: bool)
    ensures
        r == same_division(teams@),
{
    if teams.len() == 0 {
        return false;
    }
    let d = teams[0] / 4;
    let mut k: usize = 0;
    while k < teams.len()
        invariant
            teams@.len() > 0,
            d == teams@[0] / 4,
            k <= teams.len(),
            forall|j: int| 0 <= j < k ==> #[trigger] teams@[j] / 4 == d,
        decreases teams.len() - k,
    {
        if teams[k] / 4 != d {
            return false;
        }
        k = k + 1;
    }
    true
}

/// Computes the tiebreaker records of the standings page for the selected
/// teams `teams`, of which there are `selected_teams`. A record is `None` for
/// a team that was not selected or that has no finished game in its scope.
pub fn calculate_tiebreakers(games: &Games, selected_teams: usize, teams: &Vec<usize>) -> (tb: Tiebreakers)
    requires
        games.wf(),
        forall|k: int| 0 <= k < teams@.len() ==> #[trigger] teams@[k] < TEAM_COUNT,
        tiebreakers_fit(games, teams@, selected_teams as nat),
    ensures
        tiebreakers_of(games, teams@, selected_teams as nat, tb),
{
    let pc = play_counts(games, teams);
    let one_division = all_in_one_division(teams);
    let mut every: Vec<bool> = Vec::new();
    let mut common: Vec<bool> = Vec::new();
    let mut i: usize = 0;
    while i < TEAM_COUNT
        invariant
            i <= TEAM_COUNT,
            pc@.len() == TEAM_COUNT,
            every@.len() == i,
            common@.len() == i,
            forall|t: int| 0 <= t < i ==> #[trigger] every@[t] == every_team()[t],
            forall|t: int| 0 <= t < i ==> #[trigger] common@[t] == (pc@[t] > 0 && pc@[t] == selected_teams),
        decreases TEAM_COUNT - i,
    {
        every.push(true);
        common.push(pc[i] > 0 && pc[i] == selected_teams);
        i = i + 1;
    }
    assert(every@ =~= every_team());
    assert(common@ =~= common_opponents(games, teams@, selected_teams as nat));
    let mut head_to_head = none_records();
    let mut division_record = none_records();
    let mut common_games = none_records();
    let mut conference_record = none_records();
    let ghost n = selected_teams as nat;
    let mut k: usize = 0;
    while k < teams.len()
        invariant
            games.wf(),
            forall|k: int| 0 <= k < teams@.len() ==> #[trigger] teams@[k] < TEAM_COUNT,
            tiebreakers_fit(games, teams@, n),
            n == selected_teams as nat,
            one_division == same_division(teams@),
            every@ == every_team(),
            common@ == common_opponents(games, teams@, n),
            k <= teams.len(),
            head_to_head@.len() == TEAM_COUNT,
            division_record@.len() == TEAM_COUNT,
            common_games@.len() == TEAM_COUNT,
            conference_record@.len() == TEAM_COUNT,
            forall|t: int|
                0 <= t < 32 ==> {
                    let c = occurrences_upto(teams@, t, k as int);
                    &&& tally_of(#[trigger] head_to_head@[t]) == repeat(c, tally_over(games, t, teams@))
                    &&& tally_of(division_record@[t]) == repeat(
                        c,
                        if same_division(teams@) {
                            tally_range(games, t, 4 * (t / 4), 4 * (t / 4) + 4, every_team())
                        } else {
                            None
                        },
                    )
                    &&& tally_of(conference_record@[t]) == repeat(
                        c,
                        tally_range(games, t, 16 * (t / 16), 16 * (t / 16) + 16, every_team()),
                    )
                    &&& tally_of(common_games@[t]) == repeat(
                        c,
                        tally_range(games, t, 0, 32, common_opponents(games, teams@, n)),
                    )
                },
        decreases teams.len() - k,
    {
        let t1 = teams[k];
        let ghost t = t1 as int;
        let ghost c = occurrences_upto(teams@, t, k as int);
        proof {
            lemma_occurrences_mono(teams@, t, k + 1, teams@.len() as int);
            assert(occurrences_upto(teams@, t, k + 1) == c + 1);
            assert(fits(spec_head_to_head(games, teams@, t)));
        }
        let ghost xh = tally_over(games, t, teams@);
        let ghost xd = if same_division(teams@) {
            tally_range(games, t, 4 * (t / 4), 4 * (t / 4) + 4, every_team())
        } else {
            None
        };
        let ghost xc = tally_range(games, t, 16 * (t / 16), 16 * (t / 16) + 16, every_team());
        let ghost xg = tally_range(games, t, 0, 32, common_opponents(games, teams@, n));
        proof {
            lemma_repeat_mono(c + 1, occurrences(teams@, t), xh);
            lemma_repeat_mono(c + 1, occurrences(teams@, t), xd);
            lemma_repeat_mono(c + 1, occurrences(teams@, t), xc);
            lemma_repeat_mono(c + 1, occurrences(teams@, t), xg);
            lemma_plus_grows(repeat(c, xh), xh);
            lemma_plus_grows(repeat(c, xd), xd);
            lemma_plus_grows(repeat(c, xc), xc);
            lemma_plus_grows(repeat(c, xg), xg);
        }
        let x = record_over(games, t1, teams);
        let old_h = head_to_head[t1];
        head_to_head.set(t1, add_records(old_h, x));
        if one_division {
            let y = record_range(games, t1, 4 * (t1 / 4), 4 * (t1 / 4) + 4, &every);
            let old_d = division_record[t1];
            division_record.set(t1, add_records(old_d, y));
        }
        let z = record_range(games, t1, 16 * (t1 / 16), 16 * (t1 / 16) + 16, &every);
        let old_c = conference_record[t1];
        conference_record.set(t1, add_records(old_c, z));
        let w = record_range(games, t1, 0, TEAM_COUNT, &common);
        let old_g = common_games[t1];
        common_games.set(t1, add_records(old_g, w));
        k = k + 1;
    }
    Tiebreakers { play_count: pc, head_to_head, division_record, common_games, conference_record }
}

/// Every count of the tally is at most `b`.
pub open spec fn at_most(a: Tally, b: int) -> bool {
    match a {
        None => true,
        Some(x) => x.0 <= b && x.1 <= b && x.2 <= b,
    }
}

proof fn lemma_cell_upto_at_most(g: &Games, t1: int, t2: int, n: int)
    requires
        n >= 0,
    ensures
        at_most(cell_tally_upto(g, t1, t2, n), n),
    decreases n,
{
    if n > 0 {
        lemma_cell_upto_at_most(g, t1, t2, n - 1);
    }
}

/// A wide record in mathematical integers.
spec fn wide_tally(r: Option<(u64, u64, u64)>) -> Tally {
    match r {
        None => None,
        Some(x) => Some((x.0 as nat, x.1 as nat, x.2 as nat)),
    }
}

/// The record of `t1` over its finished games against `t2`, in wide counts,
/// each of which is at most the number of games.
fn cell_record_wide(g: &Games, t1: usize, t2: usize) -> (r: Option<(u64, u64, u64)>)
    requires
        g.wf(),
        t1 < TEAM_COUNT,
        t2 < TEAM_COUNT,
    ensures
        wide_tally(r) == cell_tally(g, t1 as int, t2 as int),
{
    let n = g.game_count(t1, t2);
    let mut acc: Option<(u64, u64, u64)> = None;
    let mut k: usize = 0;
    while k < n
        invariant
            g.wf(),
            t1 < TEAM_COUNT,
            t2 < TEAM_COUNT,
            n == g.cell(t1 as int, t2 as int).len(),
            k <= n,
            wide_tally(acc) == cell_tally_upto(g, t1 as int, t2 as int, k as int),
        decreases n - k,
    {
        let game = g.game(t1, t2, k);
        proof {
            lemma_cell_upto_at_most(g, t1 as int, t2 as int, k as int);
        }
        if game.status == GameStatus::Final {
            assert(has_week(g.cell(t1 as int, t2 as int), game.week)) by {
                assert(g.cell(t1 as int, t2 as int)[k as int].week == game.week);
            }
            let other = g.score_in_week(t2, t1, game.week);
            let o = game_outcome(game.score, other);
            let w = (o.0 as u64, o.1 as u64, o.2 as u64);
            acc = match acc {
                None => Some(w),
                Some(x) => Some((x.0 + w.0, x.1 + w.1, x.2 + w.2)),
            };
        }
        k = k + 1;
    }
    acc
}

/// Adds a wide record to a record, when the sum fits in `u32` counts.
fn add_checked(a: Option<Record>, b: Option<(u64, u64, u64)>) -> (r: Option<Option<Record>>)
    ensures
        match r {
            Some(x) => tally_of(x) == plus(tally_of(a), wide_tally(b)),
            None => !fits(plus(tally_of(a), wide_tally(b))),
        },
{
    match b {
        None => Some(a),
        Some(y) => {
            let x = match a {
                None => (0u32, 0u32, 0u32),
                Some(x) => x,
            };
            if y.0 > 0xffff_ffff || y.1 > 0xffff_ffff || y.2 > 0xffff_ffff {
                return None;
            }
            let s0 = x.0 as u64 + y.0;
            let s1 = x.1 as u64 + y.1;
            let s2 = x.2 as u64 + y.2;
            if s0 > 0xffff_ffff || s1 > 0xffff_ffff || s2 > 0xffff_ffff {
                None
            } else {
                Some(Some((s0 as u32, s1 as u32, s2 as u32)))
            }
        },
    }
}

/// The record of `t1` against every team listed in `opps`, when it fits in
/// `u32` counts; `None` when it does not.
fn record_over_checked(g: &Games, t1: usize, opps: &Vec<usize>) -> (r: Option<Option<Record>>)
    requires
        g.wf(),
        t1 < TEAM_COUNT,
        forall|k: int| 0 <= k < opps@.len() ==> #[trigger] opps@[k] < TEAM_COUNT,
    ensures
        match r {
            Some(x) => tally_of(x) == tally_over(g, t1 as int, opps@),
            None => !fits(tally_over(g, t1 as int, opps@)),
        },
{
    let mut acc: Option<Record> = None;
    let mut k: usize = 0;
    while k < opps.len()
        invariant
            g.wf(),
            t1 < TEAM_COUNT,
            forall|k: int| 0 <= k < opps@.len() ==> #[trigger] opps@[k] < TEAM_COUNT,
            k <= opps.len(),
            tally_of(acc) == tally_over_upto(g, t1 as int, opps@, k as int),
        decreases opps.len() - k,
    {
        proof {
            lemma_over_upto_mono(g, t1 as int, opps@, k + 1, opps.len() as int);
        }
        let c = cell_record_wide(g, t1, opps[k]);
        match add_checked(acc, c) {
            Some(x) => {
                acc = x;
            },
            None => {
                return None;
            },
        }
        k = k + 1;
    }
    Some(acc)
}

/// The record of `t1` against the teams `lo..hi` that `counted` marks, when
/// it fits in `u32` counts; `None` when it does not.
fn record_range_checked(g: &Games, t1: usize, lo: usize, hi: usize, counted: &Vec<bool>) -> (r: Option<Option<Record>>)
    requires
        g.wf(),
        t1 < TEAM_COUNT,
        lo <= hi <= TEAM_COUNT,
        counted@.len() == TEAM_COUNT,
    ensures
        match r {
            Some(x) => tally_of(x) == tally_range(g, t1 as int, lo as int, hi as int, counted@),
            None => !fits(tally_range(g, t1 as int, lo as int, hi as int, counted@)),
        },
{
    let mut acc: Option<Record> = None;
    let mut k: usize = lo;
    while k < hi
        invariant
            g.wf(),
            t1 < TEAM_COUNT,
            lo <= k <= hi <= TEAM_COUNT,
            counted@.len() == TEAM_COUNT,
            tally_of(acc) == tally_range(g, t1 as int, lo as int, k as int, counted@),
        decreases hi - k,
    {
        proof {
            lemma_range_mono(g, t1 as int, lo as int, k + 1, hi as int, counted@);
        }
        if counted[k] {
            let c = cell_record_wide(g, t1, k);
            match add_checked(acc, c) {
                Some(x) => {
                    acc = x;
                },
                None => {
                    return None;
                },
            }
        }
        k = k + 1;
    }
    Some(acc)
}

proof fn lemma_repeat_value(k: nat, x: Tally)
    ensures
        repeat(k, x) == if k == 0 || x is None {
            None
        } else {
            Some((k * x.unwrap().0, k * x.unwrap().1, k * x.unwrap().2))
        },
    decreases k,
{
    if k > 0 {
        lemma_repeat_value((k - 1) as nat, x);
        if x is Some {
            let v = x.unwrap();
            assert((k - 1) * v.0 + v.0 == k * v.0) by (nonlinear_arith);
            assert((k - 1) * v.1 + v.1 == k * v.1) by (nonlinear_arith);
            assert((k - 1) * v.2 + v.2 == k * v.2) by (nonlinear_arith);
            if k == 1 {
                assert(repeat(0, x) is None);
            }
        }
    }
}

/// Whether `occ` copies of a record `x` fit in `u32` counts.
fn repeat_fits(occ: usize, x: Option<Record>) -> (r: bool)
    ensures
        r == fits(repeat(occ as nat, tally_of(x))),
{
    proof {
        lemma_repeat_value(occ as nat, tally_of(x));
    }
    match x {
        None => true,
        Some(v) => {
            if occ == 0 {
                return true;
            }
            let k = occ as u128;
            let (a, b, c) = (v.0 as u128, v.1 as u128, v.2 as u128);
            assert(k * a <= 0x1_0000_0000_0000_0000 * 0x1_0000_0000 && k * b <= 0x1_0000_0000_0000_0000 * 0x1_0000_0000
                && k * c <= 0x1_0000_0000_0000_0000 * 0x1_0000_0000) by (nonlinear_arith)
                requires
                    k <= 0x1_0000_0000_0000_0000,
                    a <= 0x1_0000_0000,
                    b <= 0x1_0000_0000,
                    c <= 0x1_0000_0000,
            ;
            k * a <= 0xffff_ffff && k * b <= 0xffff_ffff && k * c <= 0xffff_ffff
        },
    }
}

/// How often `t` appears among the selected teams.
fn count_occurrences(teams: &Vec<usize>, t: usize) -> (r: usize)
    ensures
        r == occurrences(teams@, t as int),
{
    let mut c: usize = 0;
    let mut k: usize = 0;
    while k < teams.len()
        invariant
            k <= teams.len(),
            c == occurrences_upto(teams@, t as int, k as int),
            c <= k,
        decreases teams.len() - k,
    {
        if teams[k] == t {
            c = c + 1;
        }
        k = k + 1;
    }
    c
}

/// Whether `occ` copies of a checked record fit: `None` (the record itself
/// does not fit) fits only with no copies.
fn checked_repeat_fits(occ: usize, x: Option<Option<Record>>, Ghost(t): Ghost<Tally>) -> (r: bool)
    requires
        match x {
            Some(v) => tally_of(v) == t,
            None => !fits(t),
        },
    ensures
        r == fits(repeat(occ as nat, t)),
{
    proof {
        lemma_repeat_value(occ as nat, t);
    }
    match x {
        Some(v) => repeat_fits(occ, v),
        None => {
            if occ == 0 {
                true
            } else {
                proof {
                    let y = t.unwrap();
                    assert(occ * y.0 >= y.0 && occ * y.1 >= y.1 && occ * y.2 >= y.2) by (nonlinear_arith)
                        requires
                            occ >= 1,
                    ;
                }
                false
            }
        },
    }
}

/// Whether every tiebreaker count of the selected teams `teams` fits in a
/// `u32`, with `teams.len()` selected.
pub fn tiebreaker_counts_fit(games: &Games, teams: &Vec<usize>) -> (r: bool)
    requires
        games.wf(),
        forall|k: int| 0 <= k < teams@.len() ==> #[trigger] teams@[k] < TEAM_COUNT,
    ensures
        r == tiebreakers_fit(games, teams@, teams@.len()),
{
    let n = teams.len();
    let pc = play_counts(games, teams);
    let one_division = all_in_one_division(teams);
    let mut every: Vec<bool> = Vec::new();
    let mut common: Vec<bool> = Vec::new();
    let mut i: usize = 0;
    while i < TEAM_COUNT
        invariant
            i <= TEAM_COUNT,
            pc@.len() == TEAM_COUNT,
            every@.len() == i,
            common@.len() == i,
            forall|t: int| 0 <= t < i ==> #[trigger] every@[t] == every_team()[t],
            forall|t: int| 0 <= t < i ==> #[trigger] common@[t] == (pc@[t] > 0 && pc@[t] == n),
        decreases TEAM_COUNT - i,
    {
        every.push(true);
        common.push(pc[i] > 0 && pc[i] == n);
        i = i + 1;
    }
    assert(every@ =~= every_team());
    assert(common@ =~= common_opponents(games, teams@, n as nat));
    let mut t: usize = 0;
    while t < TEAM_COUNT
        invariant
            games.wf(),
            forall|k: int| 0 <= k < teams@.len() ==> #[trigger] teams@[k] < TEAM_COUNT,
            n == teams@.len(),
            one_division == same_division(teams@),
            every@ == every_team(),
            common@ == common_opponents(games, teams@, n as nat),
            t <= TEAM_COUNT,
            forall|u: int|
                0 <= u < t ==> {
                    &&& fits(#[trigger] spec_head_to_head(games, teams@, u))
                    &&& fits(spec_division_record(games, teams@, u))
                    &&& fits(spec_conference_record(games, teams@, u))
                    &&& fits(spec_common_games(games, teams@, n as nat, u))
                },
        decreases TEAM_COUNT - t,
    {
        let occ = count_occurrences(teams, t);
        let ghost ti = t as int;
        let h = record_over_checked(games, t, teams);
        if !checked_repeat_fits(occ, h, Ghost(tally_over(games, ti, teams@))) {
            assert(!fits(spec_head_to_head(games, teams@, ti)));
            return false;
        }
        let d = if one_division {
            record_range_checked(games, t, 4 * (t / 4), 4 * (t / 4) + 4, &every)
        } else {
            Some(None)
        };
        let ghost xd = if same_division(teams@) {
            tally_range(games, ti, 4 * (ti / 4), 4 * (ti / 4) + 4, every_team())
        } else {
            None
        };
        if !checked_repeat_fits(occ, d, Ghost(xd)) {
            assert(!fits(spec_division_record(games, teams@, ti)));
            return false;
        }
        let c = record_range_checked(games, t, 16 * (t / 16), 16 * (t / 16) + 16, &every);
        if !checked_repeat_fits(occ, c, Ghost(tally_range(games, ti, 16 * (ti / 16), 16 * (ti / 16) + 16, every_team()))) {
            assert(!fits(spec_conference_record(games, teams@, ti)));
            return false;
        }
        let g = record_range_checked(games, t, 0, TEAM_COUNT, &common);
        if !checked_repeat_fits(occ, g, Ghost(tally_range(games, ti, 0, 32, common_opponents(games, teams@, n as nat)))) {
            assert(!fits(spec_common_games(games, teams@, n as nat, ti)));
            return false;
        }
        t = t + 1;
    }
    true
}

/// The tiebreakers of the selected teams `teams`, as `calculate_tiebreakers`
/// computes them with `teams.len()` selected, when every count fits in a
/// `u32`; `None` when one does not.
pub fn checked_tiebreakers(games: &Games, teams: &Vec<usize>) -> (r: Option<Tiebreakers>)
    requires
        games.wf(),
        forall|k: int| 0 <= k < teams@.len() ==> #[trigger] teams@[k] < TEAM_COUNT,
    ensures
        match r {
            Some(tb) => tiebreakers_of(games, teams@, teams@.len(), tb),
            None => !tiebreakers_fit(games, teams@, teams@.len()),
        },
{
    if tiebreaker_counts_fit(games, teams) {
        Some(calculate_tiebreakers(games, teams.len(), teams))
    } else {
        None
    }
}

/// The sum of `f(0)`, ..., `f(n - 1)`.
pub open spec fn sum_to(n: int, f: spec_fn(int) -> int) -> int
    decreases n,
{
    if n <= 0 {
        0
    } else {
        sum_to(n - 1, f) + f(n - 1)
    }
}

/// The wins of a tally; none for a missing one.
pub open spec fn wins_of(x: Tally) -> int {
    match x {
        None => 0,
        Some(v) => v.0 as int,
    }
}

/// The losses of a tally; none for a missing one.
pub open spec fn losses_of(x: Tally) -> int {
    match x {
        None => 0,
        Some(v) => v.1 as int,
    }
}

proof fn lemma_sum_ext(n: int, f: spec_fn(int) -> int, g: spec_fn(int) -> int)
    requires
        forall|i: int| 0 <= i < n ==> #[trigger] f(i) == g(i),
    ensures
        sum_to(n, f) == sum_to(n, g),
    decreases n,
{
    if n > 0 {
        lemma_sum_ext(n - 1, f, g);
    }
}

proof fn lemma_sum_add(n: int, f: spec_fn(int) -> int, g: spec_fn(int) -> int)
    ensures
        sum_to(n, |i: int| f(i) + g(i)) == sum_to(n, f) + sum_to(n, g),
    decreases n,
{
    if n > 0 {
        lemma_sum_add(n - 1, f, g);
    }
}

proof fn lemma_sum_one(n: int, x: int, v: int)
    requires
        0 <= x < n,
    ensures
        sum_to(n, |t: int| if t == x { v } else { 0 }) == v,
    decreases n,
{
    if n - 1 > x {
        lemma_sum_one(n - 1, x, v);
    } else {
        lemma_sum_zero(n - 1, x, v);
    }
}

proof fn lemma_sum_zero(n: int, x: int, v: int)
    requires
        n <= x,
    ensures
        sum_to(n, |t: int| if t == x { v } else { 0 }) == 0,
    decreases n,
{
    if n > 0 {
        lemma_sum_zero(n - 1, x, v);
    }
}

/// Summing a value over the teams, each weighted by how often it is selected,
/// is summing it over the selection.
proof fn lemma_sum_occurrences(teams: Seq<usize>, f: spec_fn(int) -> int, n: int)
    requires
        0 <= n <= teams.len(),
        forall|k: int| 0 <= k < teams.len() ==> #[trigger] teams[k] < 32,
    ensures
        sum_to(32, |t: int| occurrences_upto(teams, t, n) * f(t)) == sum_to(n, |i: int| f(teams[i] as int)),
    decreases n,
{
    if n == 0 {
        assert forall|t: int| 0 <= t < 32 implies #[trigger] occurrences_upto(teams, t, 0) * f(t) == 0 by {
            assert(occurrences_upto(teams, t, 0) == 0);
        }
        lemma_sum_ext(32, |t: int| occurrences_upto(teams, t, 0) * f(t), |t: int| 0);
        lemma_sum_zero(32, 32, 0);
        lemma_sum_ext(32, |t: int| 0, |t: int| if t == 32 { 0 } else { 0 });
    } else {
        lemma_sum_occurrences(teams, f, n - 1);
        let x = teams[n - 1] as int;
        let prev = |t: int| occurrences_upto(teams, t, n - 1) * f(t);
        let one = |t: int| if t == x { f(x) } else { 0 };
        assert forall|t: int| 0 <= t < 32 implies occurrences_upto(teams, t, n) * f(t) == #[trigger] prev(t) + one(t) by {
            let o = occurrences_upto(teams, t, n - 1);
            if t == x {
                assert((o + 1) * f(t) == o * f(t) + f(t)) by (nonlinear_arith);
            }
        }
        lemma_sum_ext(32, |t: int| occurrences_upto(teams, t, n) * f(t), |t: int| prev(t) + one(t));
        lemma_sum_add(32, prev, one);
        lemma_sum_one(32, x, f(x));
    }
}

/// A double sum can be taken in either order.
proof fn lemma_sum_swap(n: int, m: int, f: spec_fn(int, int) -> int)
    requires
        m >= 0,
    ensures
        sum_to(n, |i: int| sum_to(m, |j: int| f(i, j))) == sum_to(m, |j: int| sum_to(n, |i: int| f(i, j))),
    decreases n,
{
    if n > 0 {
        lemma_sum_swap(n - 1, m, f);
        let a = |j: int| sum_to(n - 1, |i: int| f(i, j));
        let b = |j: int| f(n - 1, j);
        assert forall|j: int| 0 <= j < m implies sum_to(n, |i: int| f(i, j)) == #[trigger] a(j) + b(j) by {}
        lemma_sum_ext(m, |j: int| sum_to(n, |i: int| f(i, j)), |j: int| a(j) + b(j));
        lemma_sum_add(m, a, b);
        lemma_sum_ext(m, b, |j: int| f(n - 1, j));
    } else {
        lemma_sum_ext(m, |j: int| sum_to(n, |i: int| f(i, j)), |j: int| 0);
        lemma_sum_zero(m, m, 0);
        lemma_sum_ext(m, |j: int| 0, |t: int| if t == m { 0 } else { 0 });
    }
}

/// The wins and losses of `t1` against the teams listed in `opps`, game by game.
proof fn lemma_over_counts(g: &Games, t1: int, opps: Seq<usize>, n: int)
    requires
        0 <= n <= opps.len(),
    ensures
        wins_of(tally_over_upto(g, t1, opps, n)) == sum_to(n, |j: int| wins_of(cell_tally(g, t1, opps[j] as int))),
        losses_of(tally_over_upto(g, t1, opps, n)) == sum_to(n, |j: int| losses_of(cell_tally(g, t1, opps[j] as int))),
    decreases n,
{
    if n > 0 {
        lemma_over_counts(g, t1, opps, n - 1);
    }
}

/// When both sides of every stored game have the same status, the selected
/// teams' head-to-head records hold as many wins as losses in all: each win
/// of one selected team over another is a loss of that other.
pub proof fn law_head_to_head_balance(g: &Games, teams: Seq<usize>)
    requires
        g.wf(),
        g.sides_agree(),
        forall|k: int| 0 <= k < teams.len() ==> #[trigger] teams[k] < 32,
    ensures
        sum_to(32, |t: int| wins_of(spec_head_to_head(g, teams, t))) == sum_to(
            32,
            |t: int| losses_of(spec_head_to_head(g, teams, t)),
        ),
{
    let n = teams.len() as int;
    let over_w = |t: int| wins_of(tally_over(g, t, teams));
    let over_l = |t: int| losses_of(tally_over(g, t, teams));
    let cw = |i: int, j: int| wins_of(cell_tally(g, teams[i] as int, teams[j] as int));
    let cl = |i: int, j: int| losses_of(cell_tally(g, teams[i] as int, teams[j] as int));
    // each team's head-to-head record is its record over the selection, once per selection
    assert forall|t: int| 0 <= t < 32 implies wins_of(#[trigger] spec_head_to_head(g, teams, t)) == occurrences_upto(teams, t, n) * over_w(t)
        && losses_of(spec_head_to_head(g, teams, t)) == occurrences_upto(teams, t, n) * over_l(t) by {
        lemma_repeat_value(occurrences(teams, t), tally_over(g, t, teams));
    }
    lemma_sum_ext(32, |t: int| wins_of(spec_head_to_head(g, teams, t)), |t: int| occurrences_upto(teams, t, n) * over_w(t));
    lemma_sum_ext(32, |t: int| losses_of(spec_head_to_head(g, teams, t)), |t: int| occurrences_upto(teams, t, n) * over_l(t));
    lemma_sum_occurrences(teams, over_w, n);
    lemma_sum_occurrences(teams, over_l, n);
    // a record over the selection adds up the records against each selected team
    assert forall|i: int| 0 <= i < n implies #[trigger] over_w(teams[i] as int) == sum_to(n, |j: int| cw(i, j)) by {
        lemma_over_counts(g, teams[i] as int, teams, n);
        lemma_sum_ext(n, |j: int| wins_of(cell_tally(g, teams[i] as int, teams[j] as int)), |j: int| cw(i, j));
    }
    assert forall|i: int| 0 <= i < n implies #[trigger] over_l(teams[i] as int) == sum_to(n, |j: int| cl(i, j)) by {
        lemma_over_counts(g, teams[i] as int, teams, n);
        lemma_sum_ext(n, |j: int| losses_of(cell_tally(g, teams[i] as int, teams[j] as int)), |j: int| cl(i, j));
    }
    let rw = |i: int| sum_to(n, |j: int| cw(i, j));
    let rl = |i: int| sum_to(n, |j: int| cl(i, j));
    let col = |i: int| sum_to(n, |j: int| cw(j, i));
    lemma_sum_ext(n, |i: int| over_w(teams[i] as int), rw);
    lemma_sum_ext(n, |i: int| over_l(teams[i] as int), rl);
    // a loss against a team is that team's win
    assert forall|i: int, j: int| 0 <= i < n && 0 <= j < n implies #[trigger] cl(i, j) == cw(j, i) by {
        law_records_mirror(g, teams[i] as int, teams[j] as int);
    }
    assert forall|i: int| 0 <= i < n implies #[trigger] rl(i) == col(i) by {
        lemma_sum_ext(n, |j: int| cl(i, j), |j: int| cw(j, i));
    }
    lemma_sum_ext(n, rl, col);
    // the wins summed by rows equal the wins summed by columns
    let f = |a: int, b: int| cw(b, a);
    lemma_sum_swap(n, n, f);
    assert forall|i: int| 0 <= i < n implies #[trigger] col(i) == sum_to(n, |j: int| f(i, j)) by {
        lemma_sum_ext(n, |j: int| cw(j, i), |j: int| f(i, j));
    }
    lemma_sum_ext(n, col, |i: int| sum_to(n, |j: int| f(i, j)));
    assert forall|j: int| 0 <= j < n implies #[trigger] rw(j) == sum_to(n, |i: int| f(i, j)) by {
        lemma_sum_ext(n, |i: int| cw(j, i), |i: int| f(i, j));
    }
    lemma_sum_ext(n, rw, |j: int| sum_to(n, |i: int| f(i, j)));
}

proof fn lemma_cell_upto_same(g1: &Games, g2: &Games, t1: int, t2: int, n: int)
    requires
        g1.cell(t1, t2) == g2.cell(t1, t2),
        g1.cell(t2, t1) == g2.cell(t2, t1),
    ensures
        cell_tally_upto(g1, t1, t2, n) == cell_tally_upto(g2, t1, t2, n),
    decreases n,
{
    if n > 0 {
        lemma_cell_upto_same(g1, g2, t1, t2, n - 1);
    }
}

proof fn lemma_range_same(g1: &Games, g2: &Games, t1: int, lo: int, hi: int, counted: Seq<bool>)
    requires
        forall|k: int| lo <= k < hi ==> #[trigger] g1.cell(t1, k) == g2.cell(t1, k) && g1.cell(k, t1) == g2.cell(k, t1),
    ensures
        tally_range(g1, t1, lo, hi, counted) == tally_range(g2, t1, lo, hi, counted),
    decreases hi - lo,
{
    if hi > lo {
        lemma_range_same(g1, g2, t1, lo, hi - 1, counted);
        assert(g1.cell(t1, hi - 1) == g2.cell(t1, hi - 1));
        lemma_cell_upto_same(g1, g2, t1, hi - 1, g1.cell(t1, hi - 1).len() as int);
    }
}

/// Games against the other conference do not count in a conference record:
/// two seasons that agree on every game between teams of one conference give
/// every team the same conference record.
pub proof fn law_conference_record_within_conference(g1: &Games, g2: &Games, teams: Seq<usize>, t: int)
    requires
        0 <= t < 32,
        forall|a: int, b: int| 0 <= a < 32 && 0 <= b < 32 && a / 16 == b / 16 ==> #[trigger] g1.cell(a, b) == g2.cell(a, b),
    ensures
        spec_conference_record(g1, teams, t) == spec_conference_record(g2, teams, t),
{
    let lo = 16 * (t / 16);
    assert forall|k: int| lo <= k < lo + 16 implies #[trigger] g1.cell(t, k) == g2.cell(t, k) && g1.cell(k, t) == g2.cell(k, t) by {
        assert(k / 16 == t / 16);
    }
    lemma_range_same(g1, g2, t, lo, lo + 16, every_team());
}

/// Every game of a selected team against a team of its own conference counts
/// in its conference record.
pub proof fn law_conference_games_count(g: &Games, teams: Seq<usize>, t: int, o: int)
    requires
        0 <= t < 32,
        0 <= o < 32,
        t / 16 == o / 16,
        occurrences(teams, t) > 0,
    ensures
        below(cell_tally(g, t, o), spec_conference_record(g, teams, t)),
{
    let lo = 16 * (t / 16);
    let x = tally_range(g, t, lo, lo + 16, every_team());
    assert(every_team()[o]);
    lemma_plus_grows(tally_range(g, t, lo, o, every_team()), cell_tally(g, t, o));
    lemma_range_mono(g, t, lo, o + 1, lo + 16, every_team());
    lemma_below_trans(cell_tally(g, t, o), tally_range(g, t, lo, o + 1, every_team()), x);
    lemma_repeat_mono(1, occurrences(teams, t), x);
    assert(repeat(1, x) == x) by {
        assert(repeat(0, x) is None);
    }
    lemma_below_trans(cell_tally(g, t, o), x, spec_conference_record(g, teams, t));
}

/// Games outside a team's division do not count in its division record: two
/// seasons that agree on every game between teams of one division give every
/// team the same division record.
pub proof fn law_division_record_within_division(g1: &Games, g2: &Games, teams: Seq<usize>, t: int)
    requires
        0 <= t < 32,
        forall|a: int, b: int| 0 <= a < 32 && 0 <= b < 32 && a / 4 == b / 4 ==> #[trigger] g1.cell(a, b) == g2.cell(a, b),
    ensures
        spec_division_record(g1, teams, t) == spec_division_record(g2, teams, t),
{
    let lo = 4 * (t / 4);
    assert forall|k: int| lo <= k < lo + 4 implies #[trigger] g1.cell(t, k) == g2.cell(t, k) && g1.cell(k, t) == g2.cell(k, t) by {
        assert(k / 4 == t / 4);
    }
    lemma_range_same(g1, g2, t, lo, lo + 4, every_team());
}

proof fn lemma_over_upto_same(g1: &Games, g2: &Games, t1: int, opps: Seq<usize>, n: int)
    requires
        0 <= n <= opps.len(),
        forall|k: int| 0 <= k < opps.len() ==> #[trigger] g1.cell(t1, opps[k] as int) == g2.cell(t1, opps[k] as int)
            && g1.cell(opps[k] as int, t1) == g2.cell(opps[k] as int, t1),
    ensures
        tally_over_upto(g1, t1, opps, n) == tally_over_upto(g2, t1, opps, n),
    decreases n,
{
    if n > 0 {
        lemma_over_upto_same(g1, g2, t1, opps, n - 1);
        assert(g1.cell(t1, opps[n - 1] as int) == g2.cell(t1, opps[n - 1] as int));
        lemma_cell_upto_same(g1, g2, t1, opps[n - 1] as int, g1.cell(t1, opps[n - 1] as int).len() as int);
    }
}

/// Only games between selected teams count in head-to-head records: two
/// seasons that agree on every game between two selected teams give every
/// team the same head-to-head record.
pub proof fn law_head_to_head_among_selected(g1: &Games, g2: &Games, teams: Seq<usize>, t: int)
    requires
        forall|i: int, j: int| 0 <= i < teams.len() && 0 <= j < teams.len() ==> #[trigger] g1.cell(
            teams[i] as int,
            teams[j] as int,
        ) == g2.cell(teams[i] as int, teams[j] as int),
    ensures
        spec_head_to_head(g1, teams, t) == spec_head_to_head(g2, teams, t),
{
    if occurrences(teams, t) > 0 {
        lemma_occurrence_in(teams, t, teams.len() as int);
        let i = choose|i: int| 0 <= i < teams.len() && teams[i] == t;
        assert forall|k: int| 0 <= k < teams.len() implies #[trigger] g1.cell(t, teams[k] as int) == g2.cell(t, teams[k] as int)
            && g1.cell(teams[k] as int, t) == g2.cell(teams[k] as int, t) by {
            assert(g1.cell(teams[i] as int, teams[k] as int) == g2.cell(teams[i] as int, teams[k] as int));
            assert(g1.cell(teams[k] as int, teams[i] as int) == g2.cell(teams[k] as int, teams[i] as int));
        }
        lemma_over_upto_same(g1, g2, t, teams, teams.len() as int);
    } else {
        assert(repeat(0, tally_over(g1, t, teams)) is None);
        assert(repeat(0, tally_over(g2, t, teams)) is None);
    }
}

proof fn lemma_occurrence_in(teams: Seq<usize>, t: int, n: int)
    requires
        0 <= n <= teams.len(),
        occurrences_upto(teams, t, n) > 0,
    ensures
        exists|i: int| 0 <= i < n && teams[i] == t,
    decreases n,
{
    if n > 0 && teams[n - 1] != t {
        lemma_occurrence_in(teams, t, n - 1);
    }
}

} // verus!
