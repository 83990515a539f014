//! The games of an NFL season: for every ordered pair of teams, the games
//! between them keyed by week, with each side's score and the game status.

use vstd::prelude::*;
use crate::nfl::TEAM_COUNT;
use crate::text::str_eq;

verus! {

/// Number of cells in the game table: one per ordered pair of teams.
pub const CELL_COUNT: usize = 1024;

/// The status of a game, as far as the standings page tells them apart.
#[derive(Clone, Copy, PartialEq, Eq, Debug, Structural)]
pub enum GameStatus {
    /// Not started yet (`STATUS_SCHEDULED`).
    Scheduled,
    /// Being played (`STATUS_IN_PROGRESS`).
    InProgress,
    /// Finished (`STATUS_FINAL`); only these games count in records.
    Final,
    /// Any other status that the scoreboard reports.
    Other,
}

/// The status that a scoreboard status name stands for.
pub open spec fn spec_status_from_name(name: Seq<char>) -> GameStatus {
    if name == "STATUS_FINAL"@ {
        GameStatus::Final
    } else if name == "STATUS_SCHEDULED"@ {
        GameStatus::Scheduled
    } else if name == "STATUS_IN_PROGRESS"@ {
        GameStatus::InProgress
    } else {
        GameStatus::Other
    }
}

impl GameStatus {
    /// Reads a scoreboard status name.
    pub fn from_name(name: &str) -> (s: GameStatus)
        ensures
            s == spec_status_from_name(name@),
    {
        if str_eq(name, "STATUS_FINAL") {
            GameStatus::Final
        } else if str_eq(name, "STATUS_SCHEDULED") {
            GameStatus::Scheduled
        } else if str_eq(name, "STATUS_IN_PROGRESS") {
            GameStatus::InProgress
        } else {
            GameStatus::Other
        }
    }
}

/// One side of a game: its week, the score of the team on this side, and the status.
#[derive(Clone, Copy, Debug, PartialEq, Eq)]
pub struct GameResult {
    pub week: i32,
    pub score: i32,
    pub status: GameStatus,
}

/// Weeks strictly increase along a cell, so a cell holds at most one game per week.
pub open spec fn sorted_weeks(c: Seq<GameResult>) -> bool {
    forall|i: int, j: int| 0 <= i < j < c.len() ==> #[trigger] c[i].week < #[trigger] c[j].week
}

/// A cell holds a game in week `w`.
pub open spec fn has_week(c: Seq<GameResult>, w: i32) -> bool {
    exists|i: int| 0 <= i < c.len() && #[trigger] c[i].week == w
}

/// The position of the game in week `w` of a cell that holds one.
pub open spec fn week_position(c: Seq<GameResult>, w: i32) -> int {
    choose|i: int| 0 <= i < c.len() && #[trigger] c[i].week == w
}

/// The game in week `w` of a cell that holds one.
pub open spec fn game_in_week(c: Seq<GameResult>, w: i32) -> GameResult {
    c[week_position(c, w)]
}

/// The score in week `w` of a cell that holds a game in that week.
pub open spec fn score_in_week(c: Seq<GameResult>, w: i32) -> i32 {
    game_in_week(c, w).score
}

proof fn lemma_week_position_unique(c: Seq<GameResult>, i: int)
    requires
        sorted_weeks(c),
        0 <= i < c.len(),
    ensures
        has_week(c, c[i].week),
        week_position(c, c[i].week) == i,
{
    let w = c[i].week;
    assert(has_week(c, w));
    let p = week_position(c, w);
    if p < i {
        assert(c[p].week < c[i].week);
    } else if p > i {
        assert(c[i].week < c[p].week);
    }
}

/// The number of games of a week-ordered cell that come before week `w`.
pub open spec fn lower_bound(c: Seq<GameResult>, w: i32) -> int
    decreases c.len(),
{
    if c.len() == 0 {
        0
    } else if c.last().week < w {
        c.len() as int
    } else {
        lower_bound(c.drop_last(), w)
    }
}

/// A cell after storing `r`: the game of `r`'s week is replaced, or `r` is
/// added in week order, as a week-keyed ordered map stores it.
pub open spec fn cell_with(c: Seq<GameResult>, r: GameResult) -> Seq<GameResult> {
    if has_week(c, r.week) {
        c.update(week_position(c, r.week), r)
    } else {
        c.insert(lower_bound(c, r.week), r)
    }
}

/// The position of the cell of the game of `t1` against `t2`.
pub open spec fn cell_index(t1: int, t2: int) -> int {
    32 * t1 + t2
}

/// The cells after a game of `t1` against `t2` in `week`, with scores `s1` and `s2`,
/// is stored: first on `t1`'s side, then on `t2`'s side.
pub open spec fn cells_with_game(
    cells: Seq<Seq<GameResult>>,
    week: i32,
    t1: int,
    t2: int,
    s1: i32,
    s2: i32,
    status: GameStatus,
) -> Seq<Seq<GameResult>> {
    let i = cell_index(t1, t2);
    let j = cell_index(t2, t1);
    let first = cells.update(i, cell_with(cells[i], GameResult { week, score: s1, status }));
    first.update(j, cell_with(first[j], GameResult { week, score: s2, status }))
}

proof fn lemma_lower_bound(c: Seq<GameResult>, w: i32)
    requires
        sorted_weeks(c),
    ensures
        0 <= lower_bound(c, w) <= c.len(),
        forall|i: int| 0 <= i < lower_bound(c, w) ==> #[trigger] c[i].week < w,
        forall|i: int| lower_bound(c, w) <= i < c.len() ==> #[trigger] c[i].week >= w,
    decreases c.len(),
{
    if c.len() > 0 {
        if c.last().week >= w {
            lemma_lower_bound(c.drop_last(), w);
            assert forall|i: int| lower_bound(c, w) <= i < c.len() implies #[trigger] c[i].week >= w by {
                if i < c.len() - 1 {
                    assert(c.drop_last()[i] == c[i]);
                }
            }
            assert forall|i: int| 0 <= i < lower_bound(c, w) implies #[trigger] c[i].week < w by {
                assert(c.drop_last()[i] == c[i]);
            }
        }
    }
}

proof fn lemma_cell_with(c: Seq<GameResult>, r: GameResult)
    requires
        sorted_weeks(c),
    ensures
        sorted_weeks(cell_with(c, r)),
        forall|w: i32| has_week(cell_with(c, r), w) <==> (has_week(c, w) || w == r.week),
        forall|w: i32|
            has_week(cell_with(c, r), w) ==> #[trigger] game_in_week(cell_with(c, r), w) == if w == r.week {
                r
            } else {
                game_in_week(c, w)
            },
{
    lemma_cell_with_weeks(c, r);
    let n = cell_with(c, r);
    assert forall|w: i32| has_week(n, w) implies #[trigger] game_in_week(n, w) == if w == r.week {
        r
    } else {
        game_in_week(c, w)
    } by {
        let q = week_position(n, w);
        lemma_week_position_unique(n, q);
        if w != r.week {
            let i = if has_week(c, r.week) {
                q
            } else if q < lower_bound(c, r.week) {
                q
            } else {
                q - 1
            };
            if !has_week(c, r.week) {
                lemma_lower_bound(c, r.week);
                assert(q != lower_bound(c, r.week));
            } else {
                assert(q != week_position(c, r.week));
            }
            assert(n[q] == c[i]);
            lemma_week_position_unique(c, i);
        } else {
            if has_week(c, r.week) {
                let p = week_position(c, r.week);
                assert(n[p].week == w);
                lemma_week_position_unique(n, p);
            } else {
                lemma_lower_bound(c, r.week);
                let p = lower_bound(c, r.week);
                assert(n[p].week == w);
                lemma_week_position_unique(n, p);
            }
        }
    }
}

proof fn lemma_cell_with_weeks(c: Seq<GameResult>, r: GameResult)
    requires
        sorted_weeks(c),
    ensures
        sorted_weeks(cell_with(c, r)),
        forall|w: i32| has_week(cell_with(c, r), w) <==> (has_week(c, w) || w == r.week),
{
    let n = cell_with(c, r);
    if has_week(c, r.week) {
        let p = week_position(c, r.week);
        assert forall|w: i32| has_week(n, w) <==> (has_week(c, w) || w == r.week) by {
            if has_week(c, w) {
                let i = choose|i: int| 0 <= i < c.len() && #[trigger] c[i].week == w;
                assert(n[i].week == w);
            }
            if has_week(n, w) {
                let i = choose|i: int| 0 <= i < n.len() && #[trigger] n[i].week == w;
                if i != p {
                    assert(c[i].week == w);
                }
            }
            if w == r.week {
                assert(n[p].week == w);
            }
        }
    } else {
        lemma_lower_bound(c, r.week);
        let p = lower_bound(c, r.week);
        assert forall|i: int, j: int| 0 <= i < j < n.len() implies #[trigger] n[i].week < #[trigger] n[j].week by {
            if j < p {
                assert(n[i] == c[i] && n[j] == c[j]);
            } else if j == p {
                assert(n[i] == c[i]);
            } else if i < p {
                assert(n[i] == c[i] && n[j] == c[j - 1]);
                assert(c[j - 1].week != r.week);
            } else if i == p {
                assert(n[j] == c[j - 1]);
                assert(c[j - 1].week != r.week);
            } else {
                assert(n[i] == c[i - 1] && n[j] == c[j - 1]);
            }
        }
        assert forall|w: i32| has_week(n, w) <==> (has_week(c, w) || w == r.week) by {
            if has_week(c, w) {
                let i = choose|i: int| 0 <= i < c.len() && #[trigger] c[i].week == w;
                if i < p {
                    assert(n[i].week == w);
                } else {
                    assert(n[i + 1].week == w);
                }
            }
            if has_week(n, w) {
                let i = choose|i: int| 0 <= i < n.len() && #[trigger] n[i].week == w;
                if i < p {
                    assert(c[i].week == w);
                } else if i > p {
                    assert(c[i - 1].week == w);
                }
            }
            if w == r.week {
                assert(n[p].week == w);
            }
        }
    }
}

/// Storing a game of two different teams and then reading either team's side
/// of that week gives back what was stored, and leaves every other pair of
/// teams as it was.
pub proof fn law_game_read_back(
    cells: Seq<Seq<GameResult>>,
    week: i32,
    t1: int,
    t2: int,
    s1: i32,
    s2: i32,
    status: GameStatus,
)
    requires
        cells.len() == CELL_COUNT,
        0 <= t1 < 32,
        0 <= t2 < 32,
        t1 != t2,
        sorted_weeks(cells[cell_index(t1, t2)]),
        sorted_weeks(cells[cell_index(t2, t1)]),
    ensures
        ({
            let after = cells_with_game(cells, week, t1, t2, s1, s2, status);
            &&& has_week(after[cell_index(t1, t2)], week)
            &&& game_in_week(after[cell_index(t1, t2)], week) == GameResult { week, score: s1, status }
            &&& has_week(after[cell_index(t2, t1)], week)
            &&& game_in_week(after[cell_index(t2, t1)], week) == GameResult { week, score: s2, status }
            &&& forall|k: int|
                0 <= k < CELL_COUNT && k != cell_index(t1, t2) && k != cell_index(t2, t1) ==> #[trigger] after[k]
                    == cells[k]
        }),
{
    let i = cell_index(t1, t2);
    let j = cell_index(t2, t1);
    let r1 = GameResult { week, score: s1, status };
    let r2 = GameResult { week, score: s2, status };
    lemma_cell_with(cells[i], r1);
    lemma_cell_with(cells[j], r2);
    let first = cells.update(i, cell_with(cells[i], r1));
    assert(first[j] == cells[j]);
}

/// What a cell holds after a game is stored on cells `i` and then `j`.
proof fn lemma_game_after(
    before: Seq<Seq<GameResult>>,
    middle: Seq<Seq<GameResult>>,
    after: Seq<Seq<GameResult>>,
    i: int,
    j: int,
    r1: GameResult,
    r2: GameResult,
    x: int,
    w: i32,
)
    requires
        0 <= i < before.len(),
        0 <= j < before.len(),
        0 <= x < before.len(),
        r1.week == r2.week,
        r1.status == r2.status,
        sorted_weeks(before[x]),
        sorted_weeks(before[i]),
        middle == before.update(i, cell_with(before[i], r1)),
        sorted_weeks(middle[j]),
        after == middle.update(j, cell_with(middle[j], r2)),
    ensures
        has_week(after[x], w) <==> (has_week(before[x], w) || ((x == i || x == j) && w == r1.week)),
        has_week(after[x], w) ==> game_in_week(after[x], w).status == if (x == i || x == j) && w == r1.week {
            r1.status
        } else {
            game_in_week(before[x], w).status
        },
{
    lemma_cell_with(before[i], r1);
    lemma_cell_with(middle[j], r2);
    if x == i {
        assert(middle[x] == cell_with(before[i], r1));
    } else {
        assert(middle[x] == before[x]);
    }
    if has_week(after[x], w) {
        if x == j {
            assert(after[x] == cell_with(middle[j], r2));
            if w != r2.week {
                assert(game_in_week(after[x], w) == game_in_week(middle[x], w));
            }
        } else {
            assert(after[x] == middle[x]);
        }
        if x == i && has_week(middle[x], w) && w != r1.week {
            assert(game_in_week(middle[x], w) == game_in_week(before[x], w));
        }
    }
}

/// The games of a season: for each ordered pair of teams, the games between
/// them in week order, seen from the first team's side.
#[derive(Clone, Debug, PartialEq, Eq)]
pub struct Games {
    /// The cell of `t1` against `t2` stands at `32 * t1 + t2`.
    pub cells: Vec<Vec<GameResult>>,
}

impl Games {
    /// The cells as sequences.
    pub open spec fn cell_views(&self) -> Seq<Seq<GameResult>> {
        self.cells@.map_values(|c: Vec<GameResult>| c@)
    }

    /// The games of `t1` against `t2`, in week order.
    pub open spec fn cell(&self, t1: int, t2: int) -> Seq<GameResult> {
        self.cells@[cell_index(t1, t2)]@
    }

    /// Every pair of teams has a cell, each cell is in week order, and a game
    /// in one team's cell for a week has its other side in the opponent's cell.
    pub open spec fn wf(&self) -> bool {
        &&& self.cells@.len() == CELL_COUNT
        &&& forall|t1: int, t2: int|
            0 <= t1 < 32 && 0 <= t2 < 32 ==> sorted_weeks(#[trigger] self.cell(t1, t2))
        &&& forall|t1: int, t2: int, w: i32|
            0 <= t1 < 32 && 0 <= t2 < 32 && #[trigger] has_week(self.cell(t1, t2), w)
                ==> has_week(self.cell(t2, t1), w)
    }

    /// The two sides of every stored game have the same status, as they do
    /// when every game is stored through `record_game`.
    pub open spec fn sides_agree(&self) -> bool {
        forall|t1: int, t2: int, w: i32|
            0 <= t1 < 32 && 0 <= t2 < 32 && #[trigger] has_week(self.cell(t1, t2), w)
                ==> game_in_week(self.cell(t2, t1), w).status == game_in_week(self.cell(t1, t2), w).status
    }

    /// A season with no games.
    pub fn new() -> (g: Games)
        ensures
            g.wf(),
            g.sides_agree(),
            forall|t1: int, t2: int| 0 <= t1 < 32 && 0 <= t2 < 32 ==> #[trigger] g.cell(t1, t2).len() == 0,
    {
        let mut cells: Vec<Vec<GameResult>> = Vec::new();
        let mut i: usize = 0;
        while i < CELL_COUNT
            invariant
                i <= CELL_COUNT,
                cells@.len() == i,
                forall|k: int| 0 <= k < i ==> #[trigger] cells@[k]@.len() == 0,
            decreases CELL_COUNT - i,
        {
            cells.push(Vec::new());
            i = i + 1;
        }
        let g = Games { cells };
        assert forall|t1: int, t2: int, w: i32|
            0 <= t1 < 32 && 0 <= t2 < 32 && #[trigger] has_week(g.cell(t1, t2), w)
            implies has_week(g.cell(t2, t1), w)
                && game_in_week(g.cell(t2, t1), w).status == game_in_week(g.cell(t1, t2), w).status by {
            assert(g.cell(t1, t2).len() == 0);
        }
        assert(g.sides_agree());
        g
    }

    /// The number of games stored for `t1` against `t2`.
    pub fn game_count(&self, t1: usize, t2: usize) -> (n: usize)
        requires
            self.wf(),
            t1 < TEAM_COUNT,
            t2 < TEAM_COUNT,
        ensures
            n == self.cell(t1 as int, t2 as int).len(),
    {
        self.cells[32 * t1 + t2].len()
    }

    /// The `k`-th game, in week order, of `t1` against `t2`.
    pub fn game(&self, t1: usize, t2: usize, k: usize) -> (r: GameResult)
        requires
            self.wf(),
            t1 < TEAM_COUNT,
            t2 < TEAM_COUNT,
            k < self.cell(t1 as int, t2 as int).len(),
        ensures
            r == self.cell(t1 as int, t2 as int)[k as int],
    {
        self.cells[32 * t1 + t2][k]
    }

    /// The score of `t1` in its game against `t2` in week `w`.
    pub fn score_in_week(&self, t1: usize, t2: usize, w: i32) -> (s: i32)
        requires
            self.wf(),
            t1 < TEAM_COUNT,
            t2 < TEAM_COUNT,
            has_week(self.cell(t1 as int, t2 as int), w),
        ensures
            s == score_in_week(self.cell(t1 as int, t2 as int), w),
    {
        let c = &self.cells[32 * t1 + t2];
        let ghost cv = self.cell(t1 as int, t2 as int);
        assert(sorted_weeks(cv));
        let mut k: usize = 0;
        while k < c.len()
            invariant
                c@ == cv,
                cv == self.cell(t1 as int, t2 as int),
                sorted_weeks(cv),
                has_week(cv, w),
                k <= cv.len(),
                forall|i: int| 0 <= i < k ==> #[trigger] cv[i].week != w,
            decreases cv.len() - k,
        {
            if c[k].week == w {
                let ghost p = week_position(cv, w);
                assert(p == k) by {
                    if p < k {
                        assert(cv[p].week != w);
                    } else if p > k {
                        assert(cv[k as int].week < cv[p].week);
                    }
                }
                assert(cv[k as int] == cv[p]);
                return c[k].score;
            }
            k = k + 1;
        }
        proof {
            let i = choose|i: int| 0 <= i < cv.len() && #[trigger] cv[i].week == w;
            assert(cv[i].week != w);
        }
        0
    }

    fn store(&mut self, idx: usize, r: GameResult)
        requires
            old(self).cells@.len() == CELL_COUNT,
            idx < CELL_COUNT,
            sorted_weeks(old(self).cells@[idx as int]@),
        ensures
            final(self).cells@.len() == CELL_COUNT,
            final(self).cell_views() == old(self).cell_views().update(
                idx as int,
                cell_with(old(self).cells@[idx as int]@, r),
            ),
    {
        let ghost before = self.cell_views();
        let mut c: Vec<GameResult> = Vec::new();
        self.cells.set_and_swap(idx, &mut c);
        let ghost cv = c@;
        assert(cv == before[idx as int]);
        proof {
            lemma_lower_bound(cv, r.week);
        }
        let mut k: usize = 0;
        while k < c.len() && c[k].week < r.week
            invariant
                c@ == cv,
                sorted_weeks(cv),
                k <= cv.len(),
                forall|i: int| 0 <= i < k ==> #[trigger] cv[i].week < r.week,
            decreases cv.len() - k,
        {
            k = k + 1;
        }
        assert(k == lower_bound(cv, r.week)) by {
            let lb = lower_bound(cv, r.week);
            if k < lb {
                assert(cv[k as int].week < r.week);
            } else if k > lb {
                assert(cv[lb].week >= r.week);
            }
        }
        if k < c.len() && c[k].week == r.week {
            assert(has_week(cv, r.week));
            let ghost p = week_position(cv, r.week);
            assert(p == k) by {
                if p < k {
                    assert(cv[p].week < r.week);
                } else if p > k {
                    assert(cv[k as int].week < cv[p].week);
                }
            }
            c.set(k, r);
        } else {
            assert(!has_week(cv, r.week)) by {
                if has_week(cv, r.week) {
                    let i = choose|i: int| 0 <= i < cv.len() && #[trigger] cv[i].week == r.week;
                    if i < k {
                        assert(cv[i].week < r.week);
                    } else if i > k {
                        assert(cv[k as int].week < cv[i].week);
                    }
                }
            }
            c.insert(k, r);
        }
        assert(c@ == cell_with(cv, r));
        self.cells.set_and_swap(idx, &mut c);
        assert(self.cell_views() =~= before.update(idx as int, cell_with(cv, r)));
    }

    /// Stores a game of `t1` against `t2` in `week`, where `t1` scored `s1` and
    /// `t2` scored `s2`, on both teams' sides; a game stored earlier for the same
    /// pair and week is replaced.
    pub fn record_game(&mut self, week: i32, t1: usize, t2: usize, s1: i32, s2: i32, status: GameStatus)
        requires
            old(self).wf(),
            t1 < TEAM_COUNT,
            t2 < TEAM_COUNT,
        ensures
            final(self).wf(),
            old(self).sides_agree() ==> final(self).sides_agree(),
            final(self).cell_views() == cells_with_game(
                old(self).cell_views(),
                week,
                t1 as int,
                t2 as int,
                s1,
                s2,
                status,
            ),
    {
        let ghost before = self.cell_views();
        let ghost i = cell_index(t1 as int, t2 as int);
        let ghost j = cell_index(t2 as int, t1 as int);
        let r1 = GameResult { week, score: s1, status };
        let r2 = GameResult { week, score: s2, status };
        assert(sorted_weeks(self.cell(t1 as int, t2 as int)));
        assert(sorted_weeks(self.cell(t2 as int, t1 as int)));
        assert(self.cells@[i]@ == before[i]);
        self.store(32 * t1 + t2, r1);
        let ghost middle = self.cell_views();
        proof {
            lemma_cell_with(before[i], r1);
        }
        assert(sorted_weeks(self.cells@[j]@)) by {
            assert(self.cells@[j]@ == middle[j]);
            if j != i {
                assert(middle[j] == before[j]);
                assert(before[j] == old(self).cell(t2 as int, t1 as int));
            }
        }
        self.store(32 * t2 + t1, r2);
        proof {
            lemma_cell_with(middle[j], r2);
            let after = self.cell_views();
            assert(after == cells_with_game(before, week, t1 as int, t2 as int, s1, s2, status));
            assert forall|a: int, b: int| 0 <= a < 32 && 0 <= b < 32 implies sorted_weeks(
                #[trigger] self.cell(a, b),
            ) by {
                let k = cell_index(a, b);
                assert(self.cell(a, b) == after[k]);
                assert(old(self).cell(a, b) == before[k]);
            }
            assert forall|a: int, b: int, w: i32|
                0 <= a < 32 && 0 <= b < 32 && #[trigger] has_week(self.cell(a, b), w)
                implies has_week(self.cell(b, a), w)
                    && (old(self).sides_agree() ==> game_in_week(self.cell(b, a), w).status == game_in_week(self.cell(a, b), w).status) by {
                let k = cell_index(a, b);
                let l = cell_index(b, a);
                assert(self.cell(a, b) == after[k]);
                assert(self.cell(b, a) == after[l]);
                assert(old(self).cell(a, b) == before[k]);
                assert(old(self).cell(b, a) == before[l]);
                assert(sorted_weeks(before[k]));
                assert(sorted_weeks(before[l]));
                lemma_game_after(before, middle, after, i, j, r1, r2, k, w);
                if has_week(after[l], w) {
                    lemma_game_after(before, middle, after, i, j, r1, r2, l, w);
                }
                if w != week {
                    assert(has_week(before[k], w));
                    assert(has_week(before[l], w));
                    lemma_game_after(before, middle, after, i, j, r1, r2, l, w);
                } else {
                    if (k == i || k == j) {
                        assert(l == j || l == i);
                        if l == j {
                            assert(has_week(after[l], w));
                        } else {
                            assert(has_week(middle[l], w));
                            assert(has_week(after[l], w));
                        }
                        lemma_game_after(before, middle, after, i, j, r1, r2, l, w);
                    } else {
                        assert(has_week(before[k], w));
                        assert(has_week(before[l], w));
                        lemma_game_after(before, middle, after, i, j, r1, r2, l, w);
                    }
                }
            }
        }
    }
}

} // verus!
