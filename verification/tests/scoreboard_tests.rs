use mybops_wasm::games::GameStatus;
use mybops_wasm::nfl::{get_division_teams, team_index};
use mybops_wasm::numbers::{parse_i32, parse_u64};
use mybops_wasm::scoreboard::{
    Competition, Competitor, Event, Scoreboard, ScoreboardError, Status, StatusType, Team, Week,
};
use mybops_wasm::standings::Season;

fn side(team: &str, score: &str) -> Competitor {
    Competitor { team: Team { abbreviation: team.to_string() }, score: score.to_string() }
}

fn game(t1: &str, s1: &str, t2: &str, s2: &str, status: &str) -> Competition {
    Competition {
        competitors: vec![side(t1, s1), side(t2, s2)],
        status: Status { status_type: StatusType { name: status.to_string() } },
    }
}

fn idx(name: &str) -> usize {
    team_index(name).unwrap()
}

#[test]
fn scores_read_as_i32() {
    assert_eq!(parse_i32("24"), Some(24));
    assert_eq!(parse_i32("0"), Some(0));
    assert_eq!(parse_i32("+3"), Some(3));
    assert_eq!(parse_i32("-7"), Some(-7));
    assert_eq!(parse_i32("007"), Some(7));
    assert_eq!(parse_i32("2147483647"), Some(i32::MAX));
    assert_eq!(parse_i32("-2147483648"), Some(i32::MIN));
    assert_eq!(parse_i32("2147483648"), None);
    assert_eq!(parse_i32("-2147483649"), None);
    assert_eq!(parse_i32(""), None);
    assert_eq!(parse_i32("-"), None);
    assert_eq!(parse_i32("+"), None);
    assert_eq!(parse_i32("+-1"), None);
    assert_eq!(parse_i32(" 1"), None);
    assert_eq!(parse_i32("1a"), None);
    for text in ["24", "+3", "-7", "2147483648", "", "-", "x"] {
        assert_eq!(parse_i32(text), text.parse::<i32>().ok());
    }
}

#[test]
fn u64_read_as_str_parse_does() {
    for text in ["0", "+5", "18446744073709551615", "18446744073709551616", "-1", "", "+", "9x"] {
        assert_eq!(parse_u64(text), text.parse::<u64>().ok());
    }
}

#[test]
fn division_teams_by_name() {
    assert_eq!(get_division_teams("AFC East"), Some(["BUF", "MIA", "NYJ", "NE"]));
    assert_eq!(get_division_teams("NFC West"), Some(["LAR", "SEA", "ARI", "SF"]));
    assert_eq!(get_division_teams("AFC Central"), None);
}

#[test]
fn scoreboard_fills_games_and_records() {
    let scoreboard = Scoreboard {
        week: Week { number: 3 },
        events: vec![
            Event { competitions: vec![game("BUF", "24", "MIA", "17", "STATUS_FINAL")] },
            Event {
                competitions: vec![
                    game("KC", "10", "LV", "10", "STATUS_FINAL"),
                    game("DAL", "0", "NYG", "0", "STATUS_SCHEDULED"),
                    game("XYZ", "3", "SF", "7", "STATUS_FINAL"),
                ],
            },
        ],
    };
    let mut season = Season::new();
    season.add_scoreboard(3, &scoreboard);
    let (buf, mia, kc, lv, dal, nyg, sf) = (idx("BUF"), idx("MIA"), idx("KC"), idx("LV"), idx("DAL"), idx("NYG"), idx("SF"));
    assert_eq!(season.records[buf], (1, 0, 0));
    assert_eq!(season.records[mia], (0, 1, 0));
    assert_eq!(season.records[kc], (0, 0, 1));
    assert_eq!(season.records[lv], (0, 0, 1));
    assert_eq!(season.records[dal], (0, 0, 0));
    // a finished game against a team that is not among the 32 counts for the known side only
    assert_eq!(season.records[sf], (1, 0, 0));
    assert_eq!(season.games.game_count(buf, mia), 1);
    assert_eq!(season.games.score_in_week(buf, mia, 3), 24);
    assert_eq!(season.games.score_in_week(mia, buf, 3), 17);
    assert_eq!(season.games.game(dal, nyg, 0).status, GameStatus::Scheduled);
    let sf_games: usize = (0..32).map(|t| season.games.game_count(sf, t)).sum();
    assert_eq!(sf_games, 0);
}

#[test]
fn second_scoreboard_adds_up() {
    let mut season = Season::new();
    for week in 1..3 {
        let scoreboard = Scoreboard {
            week: Week { number: week },
            events: vec![Event { competitions: vec![game("PHI", "30", "WSH", "20", "STATUS_FINAL")] }],
        };
        season.add_scoreboard(week, &scoreboard);
    }
    assert_eq!(season.records[idx("PHI")], (2, 0, 0));
    assert_eq!(season.records[idx("WSH")], (0, 2, 0));
    assert_eq!(season.games.game_count(idx("WSH"), idx("PHI")), 2);
}

#[test]
fn league_wins_match_losses() {
    let scoreboard = Scoreboard {
        week: Week { number: 5 },
        events: vec![Event {
            competitions: vec![
                game("BUF", "1", "MIA", "2", "STATUS_FINAL"),
                game("NE", "3", "NE", "1", "STATUS_FINAL"),
                game("GB", "9", "CHI", "9", "STATUS_FINAL"),
                game("TB", "9", "NO", "3", "STATUS_IN_PROGRESS"),
            ],
        }],
    };
    let mut season = Season::new();
    season.add_scoreboard(5, &scoreboard);
    let wins: u32 = season.records.iter().map(|r| r.0).sum();
    let losses: u32 = season.records.iter().map(|r| r.1).sum();
    let ties: u32 = season.records.iter().map(|r| r.2).sum();
    assert_eq!(wins, losses);
    assert_eq!(wins, 2);
    assert_eq!(ties, 2);
    assert_eq!(season.records[idx("NE")], (1, 1, 0));
}

#[test]
fn unreadable_scoreboards_leave_the_season_alone() {
    let mut season = Season::new();
    let before = season.clone();
    let bad_score = Scoreboard {
        week: Week { number: 1 },
        events: vec![Event {
            competitions: vec![
                game("BUF", "24", "MIA", "17", "STATUS_FINAL"),
                game("KC", "x", "LV", "10", "STATUS_FINAL"),
            ],
        }],
    };
    assert_eq!(season.try_add_scoreboard(1, &bad_score), Err(ScoreboardError::Unreadable));
    assert_eq!(season, before);
    let one_side = Scoreboard {
        week: Week { number: 1 },
        events: vec![Event {
            competitions: vec![Competition {
                competitors: vec![side("BUF", "3")],
                status: Status { status_type: StatusType { name: "STATUS_FINAL".to_string() } },
            }],
        }],
    };
    assert_eq!(season.try_add_scoreboard(1, &one_side), Err(ScoreboardError::Unreadable));
    assert_eq!(season, before);
    let good = Scoreboard {
        week: Week { number: 1 },
        events: vec![Event { competitions: vec![game("BUF", "24", "MIA", "17", "STATUS_FINAL")] }],
    };
    assert_eq!(season.try_add_scoreboard(1, &good), Ok(()));
    assert_eq!(season.records[idx("BUF")], (1, 0, 0));
}

#[test]
fn full_records_refuse_more_games() {
    let mut season = Season::new();
    season.records[idx("NE")] = (u32::MAX, 0, 0);
    season.records[idx("MIA")] = (u32::MAX - 1, 0, 0);
    let before = season.clone();
    // counts short of the limit still take a game
    let loss = Scoreboard {
        week: Week { number: 1 },
        events: vec![Event { competitions: vec![game("NE", "3", "MIA", "17", "STATUS_FINAL")] }],
    };
    assert_eq!(season.try_add_scoreboard(1, &loss), Ok(()));
    assert_eq!(season.records[idx("NE")], (u32::MAX, 1, 0));
    assert_eq!(season.records[idx("MIA")], (u32::MAX, 0, 0));
    let mut season = before.clone();
    let win = Scoreboard {
        week: Week { number: 2 },
        events: vec![Event { competitions: vec![game("NE", "30", "BUF", "17", "STATUS_FINAL")] }],
    };
    assert_eq!(season.try_add_scoreboard(2, &win), Err(ScoreboardError::TooManyGames));
    assert_eq!(season, before);
    let scheduled = Scoreboard {
        week: Week { number: 2 },
        events: vec![Event { competitions: vec![game("NE", "0", "BUF", "0", "STATUS_SCHEDULED")] }],
    };
    assert_eq!(season.try_add_scoreboard(2, &scheduled), Ok(()));
}
