//! The weekly scoreboards of the NFL season, and how the standings page takes
//! one into its season: every competition between two of the 32 teams is
//! stored, and the finished ones count in the teams' records, as does a
//! finished game of one of the 32 against a team that is not among them.

use vstd::prelude::*;
use crate::games::{GameResult, GameStatus, cells_with_game, spec_status_from_name};
use crate::nfl::{lemma_team_index_range, spec_team_index, team_index};
use crate::numbers::{parse_i32, spec_parse_i32};
use crate::standings::{Season, add_outcome, record_view, law_records_balance, record_fits, records_after_game, total};
use crate::tiebreakers::outcome;

verus! {

/// A scoreboard: the week it reports and its events.
#[derive(Clone, Debug, PartialEq, Eq)]
pub struct Scoreboard {
    pub week: Week,
    pub events: Vec<Event>,
}

/// The week of a scoreboard.
#[derive(Clone, Debug, PartialEq, Eq)]
pub struct Week {
    pub number: i32,
}

/// An event of a scoreboard.
#[derive(Clone, Debug, PartialEq, Eq)]
pub struct Event {
    pub competitions: Vec<Competition>,
}

/// A game: its competitors, the first two of which are the two sides, and its status.
#[derive(Clone, Debug, PartialEq, Eq)]
pub struct Competition {
    pub competitors: Vec<Competitor>,
    pub status: Status,
}

/// One side of a game: the team and its score, as text.
#[derive(Clone, Debug, PartialEq, Eq)]
pub struct Competitor {
    pub team: Team,
    pub score: String,
}

/// A team, by its abbreviation.
#[derive(Clone, Debug, PartialEq, Eq)]
pub struct Team {
    pub abbreviation: String,
}

/// The status of a game.
#[derive(Clone, Debug, PartialEq, Eq)]
pub struct Status {
    pub status_type: StatusType,
}

/// The kind of status, by its name, such as `STATUS_FINAL`.
#[derive(Clone, Debug, PartialEq, Eq)]
pub struct StatusType {
    pub name: String,
}

/// A season in mathematical terms: its game cells and its records.
pub type SeasonView = (Seq<Seq<GameResult>>, Seq<(nat, nat, nat)>);

/// A competition has two sides whose scores read as `i32` numbers.
pub open spec fn readable(c: Competition) -> bool {
    &&& c.competitors@.len() >= 2
    &&& spec_parse_i32(c.competitors@[0].score@) is Some
    &&& spec_parse_i32(c.competitors@[1].score@) is Some
}

/// Every competition of the scoreboard is readable.
pub open spec fn scoreboard_readable(sb: Scoreboard) -> bool {
    forall|e: int, k: int|
        0 <= e < sb.events@.len() && 0 <= k < sb.events@[e].competitions@.len() ==> readable(
            #[trigger] sb.events@[e].competitions@[k],
        )
}

/// The score of side `k` of a competition.
pub open spec fn score_of(c: Competition, k: int) -> i32 {
    spec_parse_i32(c.competitors@[k].score@).unwrap() as i32
}

/// The records after a finished game of team `t`, which scored `own`, against
/// a team that is not among the 32, which scored `other`: only `t`'s record
/// takes the game.
pub open spec fn records_after_side(records: Seq<(nat, nat, nat)>, t: int, own: i32, other: i32) -> Seq<(nat, nat, nat)> {
    records.update(t, add_outcome(records[t], outcome(own, other)))
}

/// The season after one competition of `week`: a game between two of the 32
/// teams is stored on both sides, and counts in both records when finished;
/// a finished game of one of the 32 against another team counts in that
/// team's record only; any other game changes nothing.
pub open spec fn competition_step(s: SeasonView, week: i32, c: Competition) -> SeasonView {
    let a = spec_team_index(c.competitors@[0].team.abbreviation@);
    let b = spec_team_index(c.competitors@[1].team.abbreviation@);
    let s1 = score_of(c, 0);
    let s2 = score_of(c, 1);
    let status = spec_status_from_name(c.status.status_type.name@);
    if a is Some && b is Some {
        let t1 = a.unwrap();
        let t2 = b.unwrap();
        (
            cells_with_game(s.0, week, t1, t2, s1, s2, status),
            if status == GameStatus::Final {
                records_after_game(s.1, t1, t2, s1, s2)
            } else {
                s.1
            },
        )
    } else if status == GameStatus::Final && a is Some {
        (s.0, records_after_side(s.1, a.unwrap(), s1, s2))
    } else if status == GameStatus::Final && b is Some {
        (s.0, records_after_side(s.1, b.unwrap(), s2, s1))
    } else {
        s
    }
}

/// A finished game of one of the 32 teams against a team that is not among them.
pub open spec fn one_sided(c: Competition) -> bool {
    &&& spec_status_from_name(c.status.status_type.name@) == GameStatus::Final
    &&& (spec_team_index(c.competitors@[0].team.abbreviation@) is Some) != (spec_team_index(
        c.competitors@[1].team.abbreviation@,
    ) is Some)
}

/// The season after the first `n` competitions of a list, in order.
pub open spec fn after_competitions(s: SeasonView, week: i32, comps: Seq<Competition>, n: int) -> SeasonView
    decreases n,
{
    if n <= 0 {
        s
    } else {
        competition_step(after_competitions(s, week, comps, n - 1), week, comps[n - 1])
    }
}

/// The season after the competitions of the first `n` events, in order.
pub open spec fn after_events(s: SeasonView, week: i32, events: Seq<Event>, n: int) -> SeasonView
    decreases n,
{
    if n <= 0 {
        s
    } else {
        let prev = after_events(s, week, events, n - 1);
        after_competitions(prev, week, events[n - 1].competitions@, events[n - 1].competitions@.len() as int)
    }
}

/// The season after a scoreboard of `week`.
pub open spec fn after_scoreboard(s: SeasonView, week: i32, sb: Scoreboard) -> SeasonView {
    after_events(s, week, sb.events@, sb.events@.len() as int)
}

/// Every record fits in `u32` counts.
pub open spec fn records_fit(r: Seq<(nat, nat, nat)>) -> bool {
    forall|t: int| 0 <= t < r.len() ==> record_fits(#[trigger] r[t])
}

/// Every count of every record of `a` is at most the one of `b`.
pub open spec fn records_le(a: Seq<(nat, nat, nat)>, b: Seq<(nat, nat, nat)>) -> bool {
    &&& a.len() == b.len()
    &&& forall|t: int|
        0 <= t < a.len() ==> {
            &&& #[trigger] a[t].0 <= b[t].0
            &&& a[t].1 <= b[t].1
            &&& a[t].2 <= b[t].2
        }
}

proof fn lemma_step_grows(s: SeasonView, week: i32, c: Competition)
    requires
        s.1.len() == 32,
    ensures
        records_le(s.1, competition_step(s, week, c).1),
{
    lemma_team_index_range(c.competitors@[0].team.abbreviation@);
    lemma_team_index_range(c.competitors@[1].team.abbreviation@);
}

proof fn lemma_competitions_grow(s: SeasonView, week: i32, comps: Seq<Competition>, k: int, m: int)
    requires
        s.1.len() == 32,
        0 <= k <= m,
    ensures
        records_le(after_competitions(s, week, comps, k).1, after_competitions(s, week, comps, m).1),
        after_competitions(s, week, comps, m).1.len() == 32,
    decreases m,
{
    if m > 0 {
        if k < m {
            lemma_competitions_grow(s, week, comps, k, m - 1);
        } else {
            lemma_competitions_grow(s, week, comps, k - 1, m - 1);
        }
        lemma_step_grows(after_competitions(s, week, comps, m - 1), week, comps[m - 1]);
    }
}

proof fn lemma_events_grow(s: SeasonView, week: i32, events: Seq<Event>, e: int, n: int)
    requires
        s.1.len() == 32,
        0 <= e <= n,
    ensures
        records_le(after_events(s, week, events, e).1, after_events(s, week, events, n).1),
        after_events(s, week, events, n).1.len() == 32,
    decreases n,
{
    if n > 0 {
        if e < n {
            lemma_events_grow(s, week, events, e, n - 1);
        } else {
            lemma_events_grow(s, week, events, e - 1, n - 1);
        }
        let prev = after_events(s, week, events, n - 1);
        let comps = events[n - 1].competitions@;
        lemma_competitions_grow(prev, week, comps, 0, comps.len() as int);
    }
}

/// The league's wins less its losses after the first `n` competitions.
proof fn lemma_competitions_balance(s: SeasonView, week: i32, comps: Seq<Competition>, n: int)
    requires
        s.1.len() == 32,
        0 <= n <= comps.len(),
        forall|k: int| 0 <= k < comps.len() ==> !one_sided(#[trigger] comps[k]),
    ensures
        total(after_competitions(s, week, comps, n).1, 0) - total(after_competitions(s, week, comps, n).1, 1)
            == total(s.1, 0) - total(s.1, 1),
        after_competitions(s, week, comps, n).1.len() == 32,
    decreases n,
{
    if n > 0 {
        lemma_competitions_balance(s, week, comps, n - 1);
        let prev = after_competitions(s, week, comps, n - 1);
        let c = comps[n - 1];
        lemma_team_index_range(c.competitors@[0].team.abbreviation@);
        lemma_team_index_range(c.competitors@[1].team.abbreviation@);
        let a = spec_team_index(c.competitors@[0].team.abbreviation@);
        let b = spec_team_index(c.competitors@[1].team.abbreviation@);
        if a is Some && b is Some {
            law_records_balance(prev.1, a.unwrap(), b.unwrap(), score_of(c, 0), score_of(c, 1));
        }
    }
}

/// A scoreboard counts one win and one loss, or two ties, for every finished
/// game between two of the 32 teams: when no finished game has only one side
/// among the 32, the league's wins less its losses stay what they were.
pub proof fn law_scoreboard_balance(s: SeasonView, week: i32, sb: Scoreboard)
    requires
        s.1.len() == 32,
        forall|e: int, k: int|
            0 <= e < sb.events@.len() && 0 <= k < sb.events@[e].competitions@.len() ==> !one_sided(
                #[trigger] sb.events@[e].competitions@[k],
            ),
    ensures
        total(after_scoreboard(s, week, sb).1, 0) - total(after_scoreboard(s, week, sb).1, 1)
            == total(s.1, 0) - total(s.1, 1),
{
    lemma_events_balance(s, week, sb.events@, sb.events@.len() as int);
}

proof fn lemma_events_balance(s: SeasonView, week: i32, events: Seq<Event>, n: int)
    requires
        s.1.len() == 32,
        0 <= n <= events.len(),
        forall|e: int, k: int|
            0 <= e < events.len() && 0 <= k < events[e].competitions@.len() ==> !one_sided(
                #[trigger] events[e].competitions@[k],
            ),
    ensures
        total(after_events(s, week, events, n).1, 0) - total(after_events(s, week, events, n).1, 1)
            == total(s.1, 0) - total(s.1, 1),
        after_events(s, week, events, n).1.len() == 32,
    decreases n,
{
    if n > 0 {
        lemma_events_balance(s, week, events, n - 1);
        let prev = after_events(s, week, events, n - 1);
        let comps = events[n - 1].competitions@;
        assert forall|k: int| 0 <= k < comps.len() implies !one_sided(#[trigger] comps[k]) by {
            assert(!one_sided(events[n - 1].competitions@[k]));
        }
        lemma_competitions_balance(prev, week, comps, comps.len() as int);
    }
}

impl Season {
    /// The season in mathematical terms.
    pub open spec fn season_view(&self) -> SeasonView {
        (self.games.cell_views(), self.record_views())
    }

    /// Counts a finished game of team `t`, which scored `own`, against a team
    /// that is not among the 32, which scored `other`, in `t`'s record.
    fn count_one_side(&mut self, t: usize, own: i32, other: i32)
        requires
            old(self).wf(),
            t < 32,
            record_fits(records_after_side(old(self).record_views(), t as int, own, other)[t as int]),
        ensures
            final(self).wf(),
            final(self).games == old(self).games,
            final(self).season_view() == (
                old(self).season_view().0,
                records_after_side(old(self).record_views(), t as int, own, other),
            ),
    {
        let ghost before = self.record_views();
        let r = self.records[t];
        assert(record_view(r) == before[t as int]);
        let n = if own < other {
            (r.0, r.1 + 1, r.2)
        } else if own == other {
            (r.0, r.1, r.2 + 1)
        } else {
            (r.0 + 1, r.1, r.2)
        };
        self.records.set(t, n);
        assert(self.record_views() =~= records_after_side(before, t as int, own, other));
    }

    /// Reads the scoreboard of `week` into the season: its competitions, in
    /// order, each as `add_competition` reads it when both teams are among the
    /// 32; a finished game of one of the 32 against another team counts in
    /// that team's record only.
    pub fn add_scoreboard(&mut self, week: i32, scoreboard: &Scoreboard)
        requires
            old(self).wf(),
            scoreboard_readable(*scoreboard),
            records_fit(after_scoreboard(old(self).season_view(), week, *scoreboard).1),
        ensures
            final(self).wf(),
            old(self).games.sides_agree() ==> final(self).games.sides_agree(),
            final(self).season_view() == after_scoreboard(old(self).season_view(), week, *scoreboard),
    {
        let ghost agree = self.games.sides_agree();
        let ghost s0 = self.season_view();
        let ghost events = scoreboard.events@;
        let ghost fin = after_scoreboard(s0, week, *scoreboard);
        let mut e: usize = 0;
        while e < scoreboard.events.len()
            invariant
                self.wf(),
                agree ==> self.games.sides_agree(),
                s0.1.len() == 32,
                events == scoreboard.events@,
                e <= events.len(),
                self.season_view() == after_events(s0, week, events, e as int),
                scoreboard_readable(*scoreboard),
                fin == after_events(s0, week, events, events.len() as int),
                records_fit(fin.1),
            decreases scoreboard.events.len() - e,
        {
            let comps = &scoreboard.events[e].competitions;
            let ghost base = self.season_view();
            let mut k: usize = 0;
            while k < comps.len()
                invariant
                    self.wf(),
                    agree ==> self.games.sides_agree(),
                    s0.1.len() == 32,
                    events == scoreboard.events@,
                    e < events.len(),
                    comps@ == events[e as int].competitions@,
                    base == after_events(s0, week, events, e as int),
                    k <= comps@.len(),
                    self.season_view() == after_competitions(base, week, comps@, k as int),
                    scoreboard_readable(*scoreboard),
                    fin == after_events(s0, week, events, events.len() as int),
                    records_fit(fin.1),
                decreases comps.len() - k,
            {
                let c = &comps[k];
                let ghost next = after_competitions(base, week, comps@, k + 1);
                proof {
                    assert(readable(scoreboard.events@[e as int].competitions@[k as int]));
                    lemma_events_grow(s0, week, events, e as int, e as int);
                    lemma_competitions_grow(base, week, comps@, k + 1, comps@.len() as int);
                    lemma_events_grow(s0, week, events, e + 1, events.len() as int);
                    assert(after_events(s0, week, events, e + 1) == after_competitions(
                        base,
                        week,
                        comps@,
                        comps@.len() as int,
                    ));
                    assert(records_fit(next.1));
                }
                let s1 = parse_i32(c.competitors[0].score.as_str()).unwrap();
                let s2 = parse_i32(c.competitors[1].score.as_str()).unwrap();
                let a = team_index(c.competitors[0].team.abbreviation.as_str());
                let b = team_index(c.competitors[1].team.abbreviation.as_str());
                let status = GameStatus::from_name(c.status.status_type.name.as_str());
                match (a, b) {
                    (Some(t1), Some(t2)) => {
                        proof {
                            assert(record_fits(next.1[t1 as int]));
                            assert(record_fits(next.1[t2 as int]));
                        }
                        self.add_competition(week, t1, t2, s1, s2, status);
                    },
                    (Some(t1), None) => {
                        if status == GameStatus::Final {
                            proof {
                                assert(record_fits(next.1[t1 as int]));
                            }
                            self.count_one_side(t1, s1, s2);
                        }
                    },
                    (None, Some(t2)) => {
                        if status == GameStatus::Final {
                            proof {
                                assert(record_fits(next.1[t2 as int]));
                            }
                            self.count_one_side(t2, s2, s1);
                        }
                    },
                    (None, None) => {},
                }
                k = k + 1;
            }
            e = e + 1;
        }
    }
}

/// Why a scoreboard was not read.
#[derive(Clone, Copy, Debug, PartialEq, Eq)]
pub enum ScoreboardError {
    /// A game without two sides, or with a score that is not an `i32` number.
    Unreadable,
    /// Reading the scoreboard would take a count of some record over `u32::MAX`.
    TooManyGames,
}

/// Whether every competition of the scoreboard is readable.
fn all_readable(sb: &Scoreboard) -> (r: bool)
    ensures
        r == scoreboard_readable(*sb),
{
    let mut e: usize = 0;
    while e < sb.events.len()
        invariant
            e <= sb.events@.len(),
            forall|x: int, k: int|
                0 <= x < e && 0 <= k < sb.events@[x].competitions@.len() ==> readable(
                    #[trigger] sb.events@[x].competitions@[k],
                ),
        decreases sb.events.len() - e,
    {
        let comps = &sb.events[e].competitions;
        let mut k: usize = 0;
        while k < comps.len()
            invariant
                e < sb.events@.len(),
                comps@ == sb.events@[e as int].competitions@,
                k <= comps@.len(),
                forall|x: int, j: int|
                    0 <= x < e && 0 <= j < sb.events@[x].competitions@.len() ==> readable(
                        #[trigger] sb.events@[x].competitions@[j],
                    ),
                forall|j: int| 0 <= j < k ==> readable(#[trigger] comps@[j]),
            decreases comps.len() - k,
        {
            let c = &comps[k];
            if c.competitors.len() < 2 {
                assert(!readable(sb.events@[e as int].competitions@[k as int]));
                return false;
            }
            let a = parse_i32(c.competitors[0].score.as_str());
            let b = parse_i32(c.competitors[1].score.as_str());
            if a.is_none() || b.is_none() {
                assert(!readable(sb.events@[e as int].competitions@[k as int]));
                return false;
            }
            k = k + 1;
        }
        e = e + 1;
    }
    true
}

/// Records with wider counts, in mathematical integers.
spec fn wide_view(v: Seq<(u64, u64, u64)>) -> Seq<(nat, nat, nat)> {
    v.map_values(|x: (u64, u64, u64)| (x.0 as nat, x.1 as nat, x.2 as nat))
}

/// Every count of every record is at most `u32::MAX`.
spec fn wide_fit(v: Seq<(u64, u64, u64)>) -> bool {
    forall|t: int| 0 <= t < v.len() ==> v[t].0 <= u32::MAX && v[t].1 <= u32::MAX && v[t].2 <= u32::MAX
}

/// Adds a game's outcome to record `t` of the wide records.
fn add_wide(v: &mut Vec<(u64, u64, u64)>, t: usize, own: i32, other: i32)
    requires
        t < old(v)@.len(),
        old(v)@[t as int].0 <= u32::MAX + 1,
        old(v)@[t as int].1 <= u32::MAX + 1,
        old(v)@[t as int].2 <= u32::MAX + 1,
    ensures
        wide_view(final(v)@) == wide_view(old(v)@).update(t as int, add_outcome(wide_view(old(v)@)[t as int], outcome(own, other))),
        final(v)@.len() == old(v)@.len(),
        forall|u: int| 0 <= u < final(v)@.len() && u != t ==> #[trigger] final(v)@[u] == old(v)@[u],
        final(v)@[t as int].0 <= old(v)@[t as int].0 + 1,
        final(v)@[t as int].1 <= old(v)@[t as int].1 + 1,
        final(v)@[t as int].2 <= old(v)@[t as int].2 + 1,
{
    let r = v[t];
    let n = if own < other {
        (r.0, r.1 + 1, r.2)
    } else if own == other {
        (r.0, r.1, r.2 + 1)
    } else {
        (r.0 + 1, r.1, r.2)
    };
    let ghost before = v@;
    v.set(t, n);
    assert(wide_view(v@) =~= wide_view(before).update(t as int, add_outcome(wide_view(before)[t as int], outcome(own, other))));
}

/// Whether every count of the wide records is at most `u32::MAX`.
fn check_wide(v: &Vec<(u64, u64, u64)>) -> (r: bool)
    ensures
        r == wide_fit(v@),
        r == records_fit(wide_view(v@)),
{
    let mut t: usize = 0;
    while t < v.len()
        invariant
            t <= v@.len(),
            forall|u: int| 0 <= u < t ==> v@[u].0 <= u32::MAX && v@[u].1 <= u32::MAX && v@[u].2 <= u32::MAX,
        decreases v.len() - t,
    {
        let r = v[t];
        if r.0 > 0xffff_ffff || r.1 > 0xffff_ffff || r.2 > 0xffff_ffff {
            assert(wide_view(v@)[t as int] == (r.0 as nat, r.1 as nat, r.2 as nat));
            return false;
        }
        t = t + 1;
    }
    assert forall|u: int| 0 <= u < wide_view(v@).len() implies record_fits(#[trigger] wide_view(v@)[u]) by {
        assert(wide_view(v@)[u] == (v@[u].0 as nat, v@[u].1 as nat, v@[u].2 as nat));
    }
    true
}

/// Whether reading the scoreboard of `week` keeps every count of every record
/// within `u32`: the records are read in wider counts, game by game, until a
/// count goes over.
fn scoreboard_fits(season: &Season, week: i32, sb: &Scoreboard) -> (r: bool)
    requires
        season.wf(),
        scoreboard_readable(*sb),
    ensures
        r == records_fit(after_scoreboard(season.season_view(), week, *sb).1),
{
    let ghost s0 = season.season_view();
    let ghost events = sb.events@;
    let ghost fin = after_scoreboard(s0, week, *sb);
    let mut v: Vec<(u64, u64, u64)> = Vec::new();
    let mut i: usize = 0;
    while i < season.records.len()
        invariant
            i <= season.records@.len(),
            v@.len() == i,
            forall|u: int| 0 <= u < i ==> #[trigger] v@[u] == (season.records@[u].0 as u64, season.records@[u].1 as u64, season.records@[u].2 as u64),
        decreases season.records.len() - i,
    {
        let r = season.records[i];
        v.push((r.0 as u64, r.1 as u64, r.2 as u64));
        i = i + 1;
    }
    assert(wide_view(v@) =~= s0.1);
    let mut e: usize = 0;
    while e < sb.events.len()
        invariant
            s0.1.len() == 32,
            events == sb.events@,
            e <= events.len(),
            wide_view(v@) == after_events(s0, week, events, e as int).1,
            v@.len() == 32,
            wide_fit(v@),
            scoreboard_readable(*sb),
            fin == after_events(s0, week, events, events.len() as int),
            fin == after_scoreboard(season.season_view(), week, *sb),
        decreases sb.events.len() - e,
    {
        let comps = &sb.events[e].competitions;
        let ghost base = after_events(s0, week, events, e as int);
        let mut k: usize = 0;
        while k < comps.len()
            invariant
                s0.1.len() == 32,
                events == sb.events@,
                e < events.len(),
                comps@ == events[e as int].competitions@,
                base == after_events(s0, week, events, e as int),
                k <= comps@.len(),
                wide_view(v@) == after_competitions(base, week, comps@, k as int).1,
                v@.len() == 32,
                wide_fit(v@),
                scoreboard_readable(*sb),
                fin == after_events(s0, week, events, events.len() as int),
                fin == after_scoreboard(season.season_view(), week, *sb),
            decreases comps.len() - k,
        {
            let c = &comps[k];
            let ghost next = after_competitions(base, week, comps@, k + 1);
            proof {
                assert(readable(sb.events@[e as int].competitions@[k as int]));
                lemma_events_grow(s0, week, events, e as int, e as int);
                lemma_competitions_grow(base, week, comps@, k + 1, comps@.len() as int);
                lemma_events_grow(s0, week, events, e + 1, events.len() as int);
                assert(after_events(s0, week, events, e + 1) == after_competitions(
                    base,
                    week,
                    comps@,
                    comps@.len() as int,
                ));
                lemma_team_index_range(c.competitors@[0].team.abbreviation@);
                lemma_team_index_range(c.competitors@[1].team.abbreviation@);
            }
            let s1 = parse_i32(c.competitors[0].score.as_str()).unwrap();
            let s2 = parse_i32(c.competitors[1].score.as_str()).unwrap();
            let a = team_index(c.competitors[0].team.abbreviation.as_str());
            let b = team_index(c.competitors[1].team.abbreviation.as_str());
            let status = GameStatus::from_name(c.status.status_type.name.as_str());
            if status == GameStatus::Final {
                match (a, b) {
                    (Some(t1), Some(t2)) => {
                        add_wide(&mut v, t1, s1, s2);
                        add_wide(&mut v, t2, s2, s1);
                    },
                    (Some(t1), None) => {
                        add_wide(&mut v, t1, s1, s2);
                    },
                    (None, Some(t2)) => {
                        add_wide(&mut v, t2, s2, s1);
                    },
                    (None, None) => {},
                }
            }
            assert(wide_view(v@) == next.1);
            if !check_wide(&v) {
                proof {
                    let t = choose|t: int| 0 <= t < next.1.len() && !record_fits(#[trigger] next.1[t]);
                    assert(!record_fits(fin.1[t]));
                }
                return false;
            }
            k = k + 1;
        }
        e = e + 1;
    }
    proof {
        check_wide_spec(v@);
    }
    true
}

proof fn check_wide_spec(v: Seq<(u64, u64, u64)>)
    requires
        wide_fit(v),
    ensures
        records_fit(wide_view(v)),
{
    assert forall|u: int| 0 <= u < wide_view(v).len() implies record_fits(#[trigger] wide_view(v)[u]) by {
        assert(wide_view(v)[u] == (v[u].0 as nat, v[u].1 as nat, v[u].2 as nat));
    }
}

impl Season {
    /// Reads the scoreboard of `week` into the season as `add_scoreboard`
    /// does, after checking that every game can be read and that no count of
    /// any record would go over `u32::MAX`; on an error the season stays as it was.
    pub fn try_add_scoreboard(&mut self, week: i32, scoreboard: &Scoreboard) -> (r: Result<(), ScoreboardError>)
        requires
            old(self).wf(),
        ensures
            final(self).wf(),
            old(self).games.sides_agree() ==> final(self).games.sides_agree(),
            match r {
                Ok(()) => {
                    &&& scoreboard_readable(*scoreboard)
                    &&& records_fit(after_scoreboard(old(self).season_view(), week, *scoreboard).1)
                    &&& final(self).season_view() == after_scoreboard(old(self).season_view(), week, *scoreboard)
                },
                Err(ScoreboardError::Unreadable) => !scoreboard_readable(*scoreboard) && *final(self) == *old(self),
                Err(ScoreboardError::TooManyGames) => {
                    &&& scoreboard_readable(*scoreboard)
                    &&& !records_fit(after_scoreboard(old(self).season_view(), week, *scoreboard).1)
                    &&& *final(self) == *old(self)
                },
            },
    {
        if !all_readable(scoreboard) {
            return Err(ScoreboardError::Unreadable);
        }
        if !scoreboard_fits(self, week, scoreboard) {
            return Err(ScoreboardError::TooManyGames);
        }
        self.add_scoreboard(week, scoreboard);
        Ok(())
    }
}

} // verus!
