//! The 32 NFL teams in table order, four to a division and four divisions to
//! a conference, and their lookup by abbreviation and by name.

use vstd::prelude::*;
use crate::text::str_eq;

verus! {

/// Number of teams in the league.
pub const TEAM_COUNT: usize = 32;

/// Number of divisions in the league.
pub const DIVISION_COUNT: usize = 8;

/// Number of conferences in the league.
pub const CONFERENCE_COUNT: usize = 2;

/// The abbreviation of team `t`; teams are numbered in division order,
/// four to a division, sixteen to a conference.
pub open spec fn spec_team_name(t: int) -> Seq<char> {
    if t == 0 { "BUF"@ } else 
    if t == 1 { "MIA"@ } else 
    if t == 2 { "NYJ"@ } else 
    if t == 3 { "NE"@ } else 
    if t == 4 { "BAL"@ } else 
    if t == 5 { "PIT"@ } else 
    if t == 6 { "CIN"@ } else 
    if t == 7 { "CLE"@ } else 
    if t == 8 { "HOU"@ } else 
    if t == 9 { "IND"@ } else 
    if t == 10 { "JAX"@ } else 
    if t == 11 { "TEN"@ } else 
    if t == 12 { "KC"@ } else 
    if t == 13 { "LAC"@ } else 
    if t == 14 { "DEN"@ } else 
    if t == 15 { "LV"@ } else 
    if t == 16 { "PHI"@ } else 
    if t == 17 { "WSH"@ } else 
    if t == 18 { "DAL"@ } else 
    if t == 19 { "NYG"@ } else 
    if t == 20 { "DET"@ } else 
    if t == 21 { "MIN"@ } else 
    if t == 22 { "GB"@ } else 
    if t == 23 { "CHI"@ } else 
    if t == 24 { "TB"@ } else 
    if t == 25 { "ATL"@ } else 
    if t == 26 { "CAR"@ } else 
    if t == 27 { "NO"@ } else 
    if t == 28 { "LAR"@ } else 
    if t == 29 { "SEA"@ } else 
    if t == 30 { "ARI"@ } else 
    { "SF"@ }
}

/// The name of division `d`; divisions are numbered in conference order, four to a conference.
pub open spec fn spec_division_name(d: int) -> Seq<char> {
    if d == 0 { "AFC East"@ } else 
    if d == 1 { "AFC North"@ } else 
    if d == 2 { "AFC South"@ } else 
    if d == 3 { "AFC West"@ } else 
    if d == 4 { "NFC East"@ } else 
    if d == 5 { "NFC North"@ } else 
    if d == 6 { "NFC South"@ } else 
    { "NFC West"@ }
}

/// The name of conference `c`.
pub open spec fn spec_conference_name(c: int) -> Seq<char> {
    if c == 0 { "AFC"@ } else { "NFC"@ }
}

/// The abbreviation of team `t`.
pub fn team_name(t: usize) -> (s: &'static str)
    requires
        t < TEAM_COUNT,
    ensures
        s@ == spec_team_name(t as int),
{
    match t {
        0 => "BUF",
        1 => "MIA",
        2 => "NYJ",
        3 => "NE",
        4 => "BAL",
        5 => "PIT",
        6 => "CIN",
        7 => "CLE",
        8 => "HOU",
        9 => "IND",
        10 => "JAX",
        11 => "TEN",
        12 => "KC",
        13 => "LAC",
        14 => "DEN",
        15 => "LV",
        16 => "PHI",
        17 => "WSH",
        18 => "DAL",
        19 => "NYG",
        20 => "DET",
        21 => "MIN",
        22 => "GB",
        23 => "CHI",
        24 => "TB",
        25 => "ATL",
        26 => "CAR",
        27 => "NO",
        28 => "LAR",
        29 => "SEA",
        30 => "ARI",
        _ => "SF",
    }
}

/// The name of division `d`.
pub fn division_name(d: usize) -> (s: &'static str)
    requires
        d < DIVISION_COUNT,
    ensures
        s@ == spec_division_name(d as int),
{
    match d {
        0 => "AFC East",
        1 => "AFC North",
        2 => "AFC South",
        3 => "AFC West",
        4 => "NFC East",
        5 => "NFC North",
        6 => "NFC South",
        _ => "NFC West",
    }
}

/// The name of conference `c`.
pub fn conference_name(c: usize) -> (s: &'static str)
    requires
        c < CONFERENCE_COUNT,
    ensures
        s@ == spec_conference_name(c as int),
{
    if c == 0 { "AFC" } else { "NFC" }
}

/// The first team, at `t` or after, whose abbreviation is `name`.
pub open spec fn team_index_from(name: Seq<char>, t: int) -> Option<int>
    decreases 32 - t,
{
    if t >= 32 || t < 0 {
        None
    } else if spec_team_name(t) == name {
        Some(t)
    } else {
        team_index_from(name, t + 1)
    }
}

/// The number of the team whose abbreviation is `name`, if there is one.
pub open spec fn spec_team_index(name: Seq<char>) -> Option<int> {
    team_index_from(name, 0)
}

proof fn lemma_team_index_from(name: Seq<char>, t: int)
    requires
        0 <= t <= 32,
    ensures
        team_index_from(name, t) matches Some(i) ==> t <= i < 32 && spec_team_name(i) == name
            && forall|j: int| t <= j < i ==> spec_team_name(j) != name,
        team_index_from(name, t) is None ==> forall|j: int| t <= j < 32 ==> spec_team_name(j) != name,
    decreases 32 - t,
{
    if t < 32 {
        lemma_team_index_from(name, t + 1);
    }
}

/// A team number found by abbreviation is one of the 32.
pub proof fn lemma_team_index_range(name: Seq<char>)
    ensures
        spec_team_index(name) matches Some(t) ==> 0 <= t < 32,
{
    lemma_team_index_from(name, 0);
}

/// Finds the number of a team by its abbreviation.
pub fn team_index(name: &str) -> (r: Option<usize>)
    ensures
        r matches Some(t) ==> t < TEAM_COUNT && spec_team_index(name@) == Some(t as int),
        r is None ==> spec_team_index(name@) is None,
{
    let mut t: usize = 0;
    while t < TEAM_COUNT
        invariant
            t <= TEAM_COUNT,
            team_index_from(name@, 0) == team_index_from(name@, t as int),
        decreases TEAM_COUNT - t,
    {
        if str_eq(name, team_name(t)) {
            return Some(t);
        }
        t = t + 1;
    }
    None
}

/// The division of the team named `team`, searched in division order.
pub open spec fn spec_get_division(team: Seq<char>) -> Option<Seq<char>> {
    match spec_team_index(team) {
        Some(t) => Some(spec_division_name(t / 4)),
        None => None,
    }
}

/// The conference of the team named `team`.
pub open spec fn spec_get_conference(team: Seq<char>) -> Option<Seq<char>> {
    match spec_team_index(team) {
        Some(t) => Some(spec_conference_name(t / 16)),
        None => None,
    }
}

/// Returns the division of a team, or `None` for an unknown abbreviation.
pub fn get_division(team: &str) -> (r: Option<&'static str>)
    ensures
        r matches Some(d) ==> spec_get_division(team@) == Some(d@),
        r is None ==> spec_get_division(team@) is None,
{
    match team_index(team) {
        Some(t) => Some(division_name(t / 4)),
        None => None,
    }
}

/// Returns the conference of a team, or `None` for an unknown abbreviation.
pub fn get_conference(team: &str) -> (r: Option<&'static str>)
    ensures
        r matches Some(c) ==> spec_get_conference(team@) == Some(c@),
        r is None ==> spec_get_conference(team@) is None,
{
    match team_index(team) {
        Some(t) => Some(conference_name(t / 16)),
        None => None,
    }
}

/// The first conference, at `c` or after, named `name`.
pub open spec fn conference_index_from(name: Seq<char>, c: int) -> Option<int>
    decreases 2 - c,
{
    if c >= 2 || c < 0 {
        None
    } else if spec_conference_name(c) == name {
        Some(c)
    } else {
        conference_index_from(name, c + 1)
    }
}

/// The divisions of conference `c` with their teams, in table order.
pub open spec fn conference_divisions_match(c: int, r: [(&'static str, [&'static str; 4]); 4]) -> bool {
    forall|i: int, j: int|
        0 <= i < 4 && 0 <= j < 4 ==> r@[i].0@ == spec_division_name(4 * c + i)
            && #[trigger] r@[i].1@[j]@ == spec_team_name(4 * (4 * c + i) + j)
}

fn division_teams(d: usize) -> (r: [&'static str; 4])
    requires
        d < DIVISION_COUNT,
    ensures
        forall|j: int| 0 <= j < 4 ==> #[trigger] r@[j]@ == spec_team_name(4 * d + j),
{
    let r = [team_name(4 * d), team_name(4 * d + 1), team_name(4 * d + 2), team_name(4 * d + 3)];
    assert forall|j: int| 0 <= j < 4 implies #[trigger] r@[j]@ == spec_team_name(4 * d + j) by {
        if j == 0 {} else if j == 1 {} else if j == 2 {} else {}
    }
    r
}

/// Returns the four divisions of a conference, each with its four teams,
/// or `None` for an unknown conference name.
pub fn get_conference_divisions(conference: &str) -> (r: Option<[(&'static str, [&'static str; 4]); 4]>)
    ensures
        match conference_index_from(conference@, 0) {
            Some(c) => r matches Some(divisions) && conference_divisions_match(c, divisions),
            None => r is None,
        },
{
    let mut c: usize = 0;
    while c < CONFERENCE_COUNT
        invariant
            c <= CONFERENCE_COUNT,
            conference_index_from(conference@, 0) == conference_index_from(conference@, c as int),
        decreases CONFERENCE_COUNT - c,
    {
        if str_eq(conference, conference_name(c)) {
            let r = [
                (division_name(4 * c), division_teams(4 * c)),
                (division_name(4 * c + 1), division_teams(4 * c + 1)),
                (division_name(4 * c + 2), division_teams(4 * c + 2)),
                (division_name(4 * c + 3), division_teams(4 * c + 3)),
            ];
            assert forall|i: int, j: int| 0 <= i < 4 && 0 <= j < 4 implies r@[i].0@ == spec_division_name(4 * c + i)
                && #[trigger] r@[i].1@[j]@ == spec_team_name(4 * (4 * c + i) + j) by {
                if i == 0 {} else if i == 1 {} else if i == 2 {} else {}
            }
            return Some(r);
        }
        c = c + 1;
    }
    None
}

/// The first division, at `d` or after, named `name`.
pub open spec fn division_index_from(name: Seq<char>, d: int) -> Option<int>
    decreases 8 - d,
{
    if d >= 8 || d < 0 {
        None
    } else if spec_division_name(d) == name {
        Some(d)
    } else {
        division_index_from(name, d + 1)
    }
}

/// Returns the four teams of a division, or `None` for an unknown division name.
pub fn get_division_teams(division: &str) -> (r: Option<[&'static str; 4]>)
    ensures
        match division_index_from(division@, 0) {
            Some(d) => r matches Some(teams) && forall|j: int| 0 <= j < 4 ==> #[trigger] teams@[j]@ == spec_team_name(4 * d + j),
            None => r is None,
        },
{
    let mut d: usize = 0;
    while d < DIVISION_COUNT
        invariant
            d <= DIVISION_COUNT,
            division_index_from(division@, 0) == division_index_from(division@, d as int),
        decreases DIVISION_COUNT - d,
    {
        if str_eq(division, division_name(d)) {
            return Some(division_teams(d));
        }
        d = d + 1;
    }
    None
}

} // verus!
