//! The standings page: the season as it is read from the weekly scoreboards,
//! each team's overall record, and the text of records and game results.

use vstd::prelude::*;
use crate::games::{Games, GameStatus, cells_with_game};
use crate::nfl::{TEAM_COUNT, team_name, spec_team_name};
use crate::text::{decimal, int_text, u64_text, i64_text};
use crate::tiebreakers::{Record, Tiebreakers, common_opponents, outcome, play_count, play_count_upto};

verus! {

/// Adds a game's outcome to a record, in mathematical integers.
pub open spec fn add_outcome(r: (nat, nat, nat), o: (nat, nat, nat)) -> (nat, nat, nat) {
    (r.0 + o.0, r.1 + o.1, r.2 + o.2)
}

/// A stored record in mathematical integers.
pub open spec fn record_view(r: Record) -> (nat, nat, nat) {
    (r.0 as nat, r.1 as nat, r.2 as nat)
}

/// The records after a finished game of `t1` against `t2` with scores `s1` and
/// `s2`: first `t1`'s record takes its outcome, then `t2`'s record takes its own.
pub open spec fn records_after_game(records: Seq<(nat, nat, nat)>, t1: int, t2: int, s1: i32, s2: i32) -> Seq<(nat, nat, nat)> {
    let first = records.update(t1, add_outcome(records[t1], outcome(s1, s2)));
    first.update(t2, add_outcome(first[t2], outcome(s2, s1)))
}

/// Every count of the record fits in a `u32`.
pub open spec fn record_fits(r: (nat, nat, nat)) -> bool {
    r.0 <= u32::MAX && r.1 <= u32::MAX && r.2 <= u32::MAX
}

/// One count of a record: wins (0), losses (1) or ties (2).
pub open spec fn count_of(r: (nat, nat, nat), c: int) -> nat {
    if c == 0 {
        r.0
    } else if c == 1 {
        r.1
    } else {
        r.2
    }
}

/// One count summed over all records.
pub open spec fn total(records: Seq<(nat, nat, nat)>, c: int) -> int
    decreases records.len(),
{
    if records.len() == 0 {
        0
    } else {
        total(records.drop_last(), c) + count_of(records.last(), c)
    }
}

proof fn lemma_total_update(records: Seq<(nat, nat, nat)>, i: int, v: (nat, nat, nat), c: int)
    requires
        0 <= i < records.len(),
    ensures
        total(records.update(i, v), c) == total(records, c) - count_of(records[i], c) + count_of(v, c),
    decreases records.len(),
{
    let u = records.update(i, v);
    if i < records.len() - 1 {
        lemma_total_update(records.drop_last(), i, v, c);
        assert(u.drop_last() =~= records.drop_last().update(i, v));
    } else {
        assert(u.drop_last() =~= records.drop_last());
    }
}

/// Every finished game adds one win and one loss, or two ties, to the teams'
/// records: the league's wins and losses grow alike, and its ties by two per tie.
pub proof fn law_records_balance(records: Seq<(nat, nat, nat)>, t1: int, t2: int, s1: i32, s2: i32)
    requires
        0 <= t1 < records.len(),
        0 <= t2 < records.len(),
    ensures
        ({
            let after = records_after_game(records, t1, t2, s1, s2);
            &&& total(after, 0) - total(after, 1) == total(records, 0) - total(records, 1)
            &&& total(after, 0) == total(records, 0) + if s1 == s2 { 0int } else { 1int }
            &&& total(after, 2) == total(records, 2) + if s1 == s2 { 2int } else { 0int }
        }),
{
    let first = records.update(t1, add_outcome(records[t1], outcome(s1, s2)));
    let after = first.update(t2, add_outcome(first[t2], outcome(s2, s1)));
    lemma_total_update(records, t1, add_outcome(records[t1], outcome(s1, s2)), 0);
    lemma_total_update(records, t1, add_outcome(records[t1], outcome(s1, s2)), 1);
    lemma_total_update(records, t1, add_outcome(records[t1], outcome(s1, s2)), 2);
    lemma_total_update(first, t2, add_outcome(first[t2], outcome(s2, s1)), 0);
    lemma_total_update(first, t2, add_outcome(first[t2], outcome(s2, s1)), 1);
    lemma_total_update(first, t2, add_outcome(first[t2], outcome(s2, s1)), 2);
}

/// A season as the standings page builds it from the weekly scoreboards.
#[derive(Clone, Debug, PartialEq, Eq)]
pub struct Season {
    /// Every game stored so far, from both teams' sides.
    pub games: Games,
    /// Each team's win-loss-tie record over the finished games.
    pub records: Vec<Record>,
}

impl Season {
    /// The records in mathematical integers.
    pub open spec fn record_views(&self) -> Seq<(nat, nat, nat)> {
        self.records@.map_values(|r: Record| record_view(r))
    }

    /// The games are well formed and every team has a record.
    pub open spec fn wf(&self) -> bool {
        self.games.wf() && self.records@.len() == TEAM_COUNT
    }

    /// A season before any scoreboard is read.
    pub fn new() -> (s: Season)
        ensures
            s.wf(),
            s.games.sides_agree(),
            forall|t1: int, t2: int| 0 <= t1 < 32 && 0 <= t2 < 32 ==> #[trigger] s.games.cell(t1, t2).len() == 0,
            forall|t: int| 0 <= t < 32 ==> #[trigger] s.records@[t] == (0u32, 0u32, 0u32),
    {
        let games = Games::new();
        let mut records: Vec<Record> = Vec::new();
        let mut i: usize = 0;
        while i < TEAM_COUNT
            invariant
                i <= TEAM_COUNT,
                records@.len() == i,
                forall|t: int| 0 <= t < i ==> #[trigger] records@[t] == (0u32, 0u32, 0u32),
            decreases TEAM_COUNT - i,
        {
            records.push((0, 0, 0));
            i = i + 1;
        }
        Season { games, records }
    }

    /// Reads one competition of a scoreboard: `t1` scored `s1` against `t2`,
    /// who scored `s2`, in `week`. A finished game counts in both teams'
    /// records; every game is stored on both teams' sides.
    pub fn add_competition(&mut self, week: i32, t1: usize, t2: usize, s1: i32, s2: i32, status: GameStatus)
        requires
            old(self).wf(),
            t1 < TEAM_COUNT,
            t2 < TEAM_COUNT,
            status == GameStatus::Final ==> {
                let after = records_after_game(old(self).record_views(), t1 as int, t2 as int, s1, s2);
                record_fits(after[t1 as int]) && record_fits(after[t2 as int])
            },
        ensures
            final(self).wf(),
            old(self).games.sides_agree() ==> final(self).games.sides_agree(),
            final(self).games.cell_views() == cells_with_game(
                old(self).games.cell_views(),
                week,
                t1 as int,
                t2 as int,
                s1,
                s2,
                status,
            ),
            final(self).record_views() == if status == GameStatus::Final {
                records_after_game(old(self).record_views(), t1 as int, t2 as int, s1, s2)
            } else {
                old(self).record_views()
            },
    {
        let ghost before = self.record_views();
        if status == GameStatus::Final {
            let ghost after = records_after_game(before, t1 as int, t2 as int, s1, s2);
            let ghost first = before.update(t1 as int, add_outcome(before[t1 as int], outcome(s1, s2)));
            let r1 = self.records[t1];
            proof {
                assert(record_view(r1) == before[t1 as int]);
                if t1 != t2 {
                    assert(after[t1 as int] == first[t1 as int]);
                } else {
                    assert(after[t1 as int] == add_outcome(first[t1 as int], outcome(s2, s1)));
                }
            }
            let n1 = if s1 < s2 {
                (r1.0, r1.1 + 1, r1.2)
            } else if s1 == s2 {
                (r1.0, r1.1, r1.2 + 1)
            } else {
                (r1.0 + 1, r1.1, r1.2)
            };
            self.records.set(t1, n1);
            assert(self.record_views() =~= first);
            let r2 = self.records[t2];
            assert(record_view(r2) == first[t2 as int]);
            let n2 = if s2 < s1 {
                (r2.0, r2.1 + 1, r2.2)
            } else if s2 == s1 {
                (r2.0, r2.1, r2.2 + 1)
            } else {
                (r2.0 + 1, r2.1, r2.2)
            };
            self.records.set(t2, n2);
            assert(self.record_views() =~= after);
        }
        self.games.record_game(week, t1, t2, s1, s2, status);
    }
}

/// `w-l`, or `w-l-t` when there are ties.
pub open spec fn record_text(r: Record) -> Seq<char> {
    if r.2 != 0 {
        decimal(r.0 as nat) + "-"@ + decimal(r.1 as nat) + "-"@ + decimal(r.2 as nat)
    } else {
        decimal(r.0 as nat) + "-"@ + decimal(r.1 as nat)
    }
}

fn write_record(s: &mut String, r: Record)
    ensures
        final(s)@ == old(s)@ + record_text(r),
{
    proof {
        reveal_strlit("-");
    }
    let w = u64_text(r.0 as u64);
    s.append(w.as_str());
    s.append("-");
    let l = u64_text(r.1 as u64);
    s.append(l.as_str());
    if r.2 != 0 {
        s.append("-");
        let t = u64_text(r.2 as u64);
        s.append(t.as_str());
    }
}

/// The text of a tiebreaker record: `label: w-l`, or `label: w-l-t` when there are ties.
pub fn render_record(label: &str, record: Record) -> (s: String)
    ensures
        s@ == label@ + ": "@ + record_text(record),
{
    proof {
        reveal_strlit(": ");
    }
    let mut s = String::from_str(label);
    s.append(": ");
    write_record(&mut s, record);
    s
}

/// The heading of a team on the standings page: `ABBR (w-l)`, or `ABBR (w-l-t)` when there are ties.
pub fn team_record_label(team: usize, record: Record) -> (s: String)
    requires
        team < TEAM_COUNT,
    ensures
        s@ == spec_team_name(team as int) + " ("@ + record_text(record) + ")"@,
{
    proof {
        reveal_strlit(" (");
        reveal_strlit(")");
    }
    let mut s = String::from_str(team_name(team));
    s.append(" (");
    write_record(&mut s, record);
    s.append(")");
    s
}

/// A record that was never created counts as no games.
pub open spec fn or_zero(r: Option<Record>) -> Record {
    match r {
        Some(x) => x,
        None => (0u32, 0u32, 0u32),
    }
}

/// The tiebreaker lines under a selected team: head-to-head, division record
/// (only when the team has one), common games, and conference record.
pub fn tiebreaker_lines(tb: &Tiebreakers, t: usize) -> (r: (String, Option<String>, String, String))
    requires
        t < TEAM_COUNT,
        tb.head_to_head@.len() == TEAM_COUNT,
        tb.division_record@.len() == TEAM_COUNT,
        tb.common_games@.len() == TEAM_COUNT,
        tb.conference_record@.len() == TEAM_COUNT,
    ensures
        r.0@ == "Head-to-Head: "@ + record_text(or_zero(tb.head_to_head@[t as int])),
        match tb.division_record@[t as int] {
            Some(d) => r.1 matches Some(line) && line@ == "Divison Record: "@ + record_text(d),
            None => r.1 is None,
        },
        r.2@ == "Common Games: "@ + record_text(or_zero(tb.common_games@[t as int])),
        r.3@ == "Conference Record: "@ + record_text(or_zero(tb.conference_record@[t as int])),
{
    proof {
        reveal_strlit("Head-to-Head");
        reveal_strlit("Divison Record");
        reveal_strlit("Common Games");
        reveal_strlit("Conference Record");
        reveal_strlit(": ");
        reveal_strlit("Head-to-Head: ");
        reveal_strlit("Divison Record: ");
        reveal_strlit("Common Games: ");
        reveal_strlit("Conference Record: ");
    }
    let h = match tb.head_to_head[t] {
        Some(x) => x,
        None => (0, 0, 0),
    };
    let head_to_head = render_record("Head-to-Head", h);
    assert(head_to_head@ =~= "Head-to-Head: "@ + record_text(h));
    let division = match tb.division_record[t] {
        Some(d) => {
            let line = render_record("Divison Record", d);
            assert(line@ =~= "Divison Record: "@ + record_text(d));
            Some(line)
        },
        None => None,
    };
    let c = match tb.common_games[t] {
        Some(x) => x,
        None => (0, 0, 0),
    };
    let common = render_record("Common Games", c);
    assert(common@ =~= "Common Games: "@ + record_text(c));
    let f = match tb.conference_record[t] {
        Some(x) => x,
        None => (0, 0, 0),
    };
    let conference = render_record("Conference Record", f);
    assert(conference@ =~= "Conference Record: "@ + record_text(f));
    (head_to_head, division, common, conference)
}

/// The text of a game on the standings page: `Week w` before it starts, else
/// `Week w: s1-s2` with the selected team's score first.
pub open spec fn game_text(week: i32, s1: i32, s2: i32, status: GameStatus) -> Seq<char> {
    if status == GameStatus::Scheduled {
        "Week "@ + int_text(week as int)
    } else {
        "Week "@ + int_text(week as int) + ": "@ + int_text(s1 as int) + "-"@ + int_text(s2 as int)
    }
}

/// The colour of a game: none before it starts or while it is played, else
/// by the selected team's result.
pub open spec fn game_class(s1: i32, s2: i32, status: GameStatus) -> Option<Seq<char>> {
    if status == GameStatus::Scheduled || status == GameStatus::InProgress {
        None
    } else if s1 < s2 {
        Some("text-danger"@)
    } else if s1 == s2 {
        Some("text-warning"@)
    } else {
        Some("text-success"@)
    }
}

/// The text and colour of a game on the standings page.
pub fn game_cell(week: i32, s1: i32, s2: i32, status: GameStatus) -> (r: (String, Option<&'static str>))
    ensures
        r.0@ == game_text(week, s1, s2, status),
        match r.1 {
            Some(c) => game_class(s1, s2, status) == Some(c@),
            None => game_class(s1, s2, status) is None,
        },
{
    proof {
        reveal_strlit("Week ");
        reveal_strlit(": ");
        reveal_strlit("-");
    }
    let mut text = String::from_str("Week ");
    let w = i64_text(week as i64);
    text.append(w.as_str());
    if status == GameStatus::Scheduled {
        return (text, None);
    }
    text.append(": ");
    let a = i64_text(s1 as i64);
    text.append(a.as_str());
    text.append("-");
    let b = i64_text(s2 as i64);
    text.append(b.as_str());
    if status == GameStatus::InProgress {
        return (text, None);
    }
    let class = if s1 < s2 {
        "text-danger"
    } else if s1 == s2 {
        "text-warning"
    } else {
        "text-success"
    };
    (text, Some(class))
}

/// The teams whose check boxes are checked, in table order.
pub open spec fn checked_teams(checked: Seq<bool>) -> Seq<usize>
    decreases checked.len(),
{
    if checked.len() == 0 {
        Seq::empty()
    } else if checked.last() {
        checked_teams(checked.drop_last()).push((checked.len() - 1) as usize)
    } else {
        checked_teams(checked.drop_last())
    }
}

/// Turns the team check boxes into the list of selected teams.
pub fn selected_from_checks(checked: &Vec<bool>) -> (teams: Vec<usize>)
    ensures
        teams@ == checked_teams(checked@),
{
    let mut teams: Vec<usize> = Vec::new();
    let mut i: usize = 0;
    while i < checked.len()
        invariant
            i <= checked.len(),
            teams@ == checked_teams(checked@.take(i as int)),
        decreases checked.len() - i,
    {
        assert(checked@.take(i + 1).drop_last() =~= checked@.take(i as int));
        if checked[i] {
            teams.push(i);
        }
        i = i + 1;
    }
    assert(checked@.take(checked.len() as int) =~= checked@);
    teams
}

/// The opponents listed in the game table: every team when no team is selected,
/// else those that some selected team has played. Each comes with whether all
/// selected teams have played it, which the page shows in bold.
pub open spec fn listed_opponent(play_count: Seq<usize>, selected: nat, t: int) -> bool {
    selected == 0 || play_count[t] > 0
}

/// Whether the page shows the games against `t` in bold.
pub open spec fn common_opponent(play_count: Seq<usize>, selected: nat, t: int) -> bool {
    play_count[t] > 0 && play_count[t] == selected
}

/// The opponent rows of the game table, with their bold marks.
pub fn opponent_rows(play_count: &Vec<usize>, selected: usize) -> (rows: Vec<(usize, bool)>)
    requires
        play_count@.len() == TEAM_COUNT,
    ensures
        forall|k: int| 0 <= k < rows@.len() ==> {
            &&& #[trigger] rows@[k].0 < TEAM_COUNT
            &&& listed_opponent(play_count@, selected as nat, rows@[k].0 as int)
            &&& rows@[k].1 == common_opponent(play_count@, selected as nat, rows@[k].0 as int)
        },
        forall|k: int, l: int| 0 <= k < l < rows@.len() ==> #[trigger] rows@[k].0 < #[trigger] rows@[l].0,
        forall|t: int| 0 <= t < 32 && listed_opponent(play_count@, selected as nat, t)
            ==> exists|k: int| 0 <= k < rows@.len() && #[trigger] rows@[k].0 == t,
{
    let mut rows: Vec<(usize, bool)> = Vec::new();
    let mut t: usize = 0;
    while t < TEAM_COUNT
        invariant
            play_count@.len() == TEAM_COUNT,
            t <= TEAM_COUNT,
            forall|k: int| 0 <= k < rows@.len() ==> {
                &&& #[trigger] rows@[k].0 < t
                &&& listed_opponent(play_count@, selected as nat, rows@[k].0 as int)
                &&& rows@[k].1 == common_opponent(play_count@, selected as nat, rows@[k].0 as int)
            },
            forall|k: int, l: int| 0 <= k < l < rows@.len() ==> #[trigger] rows@[k].0 < #[trigger] rows@[l].0,
            forall|u: int| 0 <= u < t && listed_opponent(play_count@, selected as nat, u)
                ==> exists|k: int| 0 <= k < rows@.len() && #[trigger] rows@[k].0 == u,
        decreases TEAM_COUNT - t,
    {
        let ghost before = rows@;
        if selected == 0 || play_count[t] > 0 {
            let common = play_count[t] > 0 && play_count[t] == selected;
            rows.push((t, common));
            assert(rows@[rows@.len() - 1].0 == t);
        }
        assert forall|u: int| 0 <= u < t + 1 && listed_opponent(play_count@, selected as nat, u)
            implies exists|k: int| 0 <= k < rows@.len() && #[trigger] rows@[k].0 == u by {
            if u < t {
                let k = choose|k: int| 0 <= k < before.len() && #[trigger] before[k].0 == u;
                assert(rows@[k] == before[k]);
            } else {
                assert(rows@[rows@.len() - 1].0 == u);
            }
        }
        t = t + 1;
    }
    rows
}

/// The columns of the standings grid: the selected teams, or all 32 teams in
/// table order when none is selected.
pub fn grid_columns(selected: &Vec<usize>) -> (columns: Vec<usize>)
    ensures
        columns@ == if selected@.len() > 0 { selected@ } else { Seq::new(32, |t: int| t as usize) },
{
    if selected.len() > 0 {
        let mut columns: Vec<usize> = Vec::new();
        let mut k: usize = 0;
        while k < selected.len()
            invariant
                k <= selected.len(),
                columns@ == selected@.subrange(0, k as int),
            decreases selected.len() - k,
        {
            columns.push(selected[k]);
            k = k + 1;
            assert(columns@ =~= selected@.subrange(0, k as int));
        }
        assert(columns@ =~= selected@);
        columns
    } else {
        let mut columns: Vec<usize> = Vec::new();
        let mut t: usize = 0;
        while t < TEAM_COUNT
            invariant
                t <= TEAM_COUNT,
                columns@ == Seq::new(t as nat, |i: int| i as usize),
            decreases TEAM_COUNT - t,
        {
            columns.push(t);
            t = t + 1;
            assert(columns@ =~= Seq::new(t as nat, |i: int| i as usize));
        }
        columns
    }
}

/// The style of the standings grid with `columns` team columns: one more
/// column holds the opponents.
pub fn grid_style(columns: usize) -> (s: String)
    requires
        columns < u64::MAX,
    ensures
        s@ == "grid-template-columns: repeat("@ + decimal(columns as nat + 1) + ", max-content)"@,
{
    let mut s = String::from_str("grid-template-columns: repeat(");
    let n = u64_text(columns as u64 + 1);
    s.append(n.as_str());
    s.append(", max-content)");
    s
}

proof fn lemma_play_count_all(g: &Games, teams: Seq<usize>, t: int, n: int)
    requires
        0 <= n <= teams.len(),
    ensures
        play_count_upto(g, teams, t, n) <= n,
        play_count_upto(g, teams, t, n) == n <==> forall|k: int| 0 <= k < n ==> #[trigger] g.cell(teams[k] as int, t).len() > 0,
    decreases n,
{
    if n > 0 {
        lemma_play_count_all(g, teams, t, n - 1);
        if play_count_upto(g, teams, t, n) == n {
            assert forall|k: int| 0 <= k < n implies #[trigger] g.cell(teams[k] as int, t).len() > 0 by {
                if k < n - 1 {
                    assert(play_count_upto(g, teams, t, n - 1) == n - 1);
                }
            }
        }
    }
}

/// The game table shows an opponent's games in bold exactly when every
/// selected team has a game against it, and there is a selected team: the
/// opponents whose games the common-games tiebreaker counts.
pub proof fn law_bold_opponents_are_common(g: &Games, teams: Seq<usize>, pc: Seq<usize>, t: int)
    requires
        pc.len() == 32,
        0 <= t < 32,
        forall|u: int| 0 <= u < 32 ==> #[trigger] pc[u] == play_count(g, teams, u),
    ensures
        common_opponent(pc, teams.len(), t) <==> (teams.len() > 0 && forall|k: int|
            0 <= k < teams.len() ==> #[trigger] g.cell(teams[k] as int, t).len() > 0),
        common_opponent(pc, teams.len(), t) == common_opponents(g, teams, teams.len())[t],
{
    lemma_play_count_all(g, teams, t, teams.len() as int);
    assert(pc[t] == play_count(g, teams, t));
}

} // verus!
