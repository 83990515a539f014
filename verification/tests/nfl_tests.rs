use mybops_wasm::games::{GameResult, GameStatus, Games};
use mybops_wasm::nfl::{
    conference_name, division_name, get_conference, get_conference_divisions, get_division, team_index,
    team_name,
};
use mybops_wasm::standings::{grid_columns, grid_style,
    
    game_cell, opponent_rows, render_record, selected_from_checks, team_record_label, tiebreaker_lines, Season,
};
use mybops_wasm::tiebreakers::{calculate_tiebreakers, checked_tiebreakers, tiebreaker_counts_fit};

fn idx(name: &str) -> usize {
    team_index(name).unwrap()
}

#[test]
fn team_table() {
    assert_eq!(team_name(0), "BUF");
    assert_eq!(team_name(31), "SF");
    assert_eq!(division_name(0), "AFC East");
    assert_eq!(division_name(7), "NFC West");
    assert_eq!(conference_name(1), "NFC");
    assert_eq!(team_index("BUF"), Some(0));
    assert_eq!(team_index("WSH"), Some(17));
    assert_eq!(team_index("SF"), Some(31));
    assert_eq!(team_index("WAS"), None);
    assert_eq!(team_index(""), None);
}

#[test]
fn division_and_conference_lookup() {
    assert_eq!(get_division("KC"), Some("AFC West"));
    assert_eq!(get_division("GB"), Some("NFC North"));
    assert_eq!(get_division("XYZ"), None);
    assert_eq!(get_conference("DAL"), Some("NFC"));
    assert_eq!(get_conference("PIT"), Some("AFC"));
    assert_eq!(get_conference("XYZ"), None);
}

#[test]
fn conference_divisions() {
    let nfc = get_conference_divisions("NFC").unwrap();
    assert_eq!(nfc[0], ("NFC East", ["PHI", "WSH", "DAL", "NYG"]));
    assert_eq!(nfc[1], ("NFC North", ["DET", "MIN", "GB", "CHI"]));
    assert_eq!(nfc[3], ("NFC West", ["LAR", "SEA", "ARI", "SF"]));
    let afc = get_conference_divisions("AFC").unwrap();
    assert_eq!(afc[2], ("AFC South", ["HOU", "IND", "JAX", "TEN"]));
    assert_eq!(get_conference_divisions("XFL"), None);
}

#[test]
fn status_names() {
    assert_eq!(GameStatus::from_name("STATUS_FINAL"), GameStatus::Final);
    assert_eq!(GameStatus::from_name("STATUS_SCHEDULED"), GameStatus::Scheduled);
    assert_eq!(GameStatus::from_name("STATUS_IN_PROGRESS"), GameStatus::InProgress);
    assert_eq!(GameStatus::from_name("STATUS_HALFTIME"), GameStatus::Other);
}

#[test]
fn game_read_back_law() {
    let mut g = Games::new();
    let buf = idx("BUF");
    let mia = idx("MIA");
    g.record_game(3, buf, mia, 24, 17, GameStatus::Final);
    assert_eq!(g.game_count(buf, mia), 1);
    assert_eq!(g.game_count(mia, buf), 1);
    assert_eq!(g.score_in_week(buf, mia, 3), 24);
    assert_eq!(g.score_in_week(mia, buf, 3), 17);
    assert_eq!(g.game(buf, mia, 0), GameResult { week: 3, score: 24, status: GameStatus::Final });
    assert_eq!(g.game_count(buf, idx("NYJ")), 0);
    // the same week again replaces the game
    g.record_game(3, mia, buf, 10, 13, GameStatus::InProgress);
    assert_eq!(g.game_count(buf, mia), 1);
    assert_eq!(g.score_in_week(buf, mia, 3), 13);
    assert_eq!(g.score_in_week(mia, buf, 3), 10);
}

#[test]
fn games_keep_week_order() {
    let mut g = Games::new();
    g.record_game(10, 0, 1, 1, 2, GameStatus::Final);
    g.record_game(2, 0, 1, 3, 4, GameStatus::Final);
    g.record_game(6, 1, 0, 5, 6, GameStatus::Scheduled);
    let weeks: Vec<i32> = (0..g.game_count(0, 1)).map(|k| g.game(0, 1, k).week).collect();
    assert_eq!(weeks, vec![2, 6, 10]);
    assert_eq!(g.game(0, 1, 1).score, 6);
}

#[test]
fn season_records() {
    let mut s = Season::new();
    let kc = idx("KC");
    let lv = idx("LV");
    s.add_competition(1, kc, lv, 27, 20, GameStatus::Final);
    s.add_competition(2, lv, kc, 14, 14, GameStatus::Final);
    s.add_competition(3, kc, lv, 0, 0, GameStatus::Scheduled);
    assert_eq!(s.records[kc], (1, 0, 1));
    assert_eq!(s.records[lv], (0, 1, 1));
    assert_eq!(s.games.game_count(kc, lv), 3);
}

#[test]
fn records_balance_law() {
    let mut s = Season::new();
    let games = [(1, 0, 1, 20, 10), (1, 2, 3, 7, 7), (2, 0, 2, 3, 30), (2, 1, 3, 21, 14), (3, 4, 5, 9, 12)];
    for (week, a, b, sa, sb) in games {
        s.add_competition(week, a, b, sa, sb, GameStatus::Final);
    }
    let wins: u32 = s.records.iter().map(|r| r.0).sum();
    let losses: u32 = s.records.iter().map(|r| r.1).sum();
    let ties: u32 = s.records.iter().map(|r| r.2).sum();
    assert_eq!(wins, 4);
    assert_eq!(losses, 4);
    assert_eq!(ties, 2);
}

fn afc_east_season() -> Games {
    let mut g = Games::new();
    let (buf, mia, nyj, ne) = (idx("BUF"), idx("MIA"), idx("NYJ"), idx("NE"));
    let (kc, dal) = (idx("KC"), idx("DAL"));
    g.record_game(1, buf, mia, 31, 10, GameStatus::Final);
    g.record_game(2, mia, buf, 21, 20, GameStatus::Final);
    g.record_game(3, buf, nyj, 17, 17, GameStatus::Final);
    g.record_game(4, mia, ne, 24, 3, GameStatus::Final);
    g.record_game(5, buf, kc, 10, 30, GameStatus::Final);
    g.record_game(6, mia, kc, 14, 7, GameStatus::Final);
    g.record_game(7, buf, dal, 0, 0, GameStatus::Scheduled);
    g.record_game(8, mia, nyj, 3, 6, GameStatus::InProgress);
    g
}

#[test]
fn tiebreakers_two_teams_of_one_division() {
    let g = afc_east_season();
    let (buf, mia, nyj, ne, kc, dal) = (idx("BUF"), idx("MIA"), idx("NYJ"), idx("NE"), idx("KC"), idx("DAL"));
    let teams = vec![buf, mia];
    let tb = calculate_tiebreakers(&g, teams.len(), &teams);
    assert_eq!(tb.head_to_head[buf], Some((1, 1, 0)));
    assert_eq!(tb.head_to_head[mia], Some((1, 1, 0)));
    assert_eq!(tb.division_record[buf], Some((1, 1, 1)));
    assert_eq!(tb.division_record[mia], Some((2, 1, 0)));
    assert_eq!(tb.conference_record[buf], Some((1, 2, 1)));
    assert_eq!(tb.conference_record[mia], Some((3, 1, 0)));
    // both played KC (and NYJ, in progress for MIA); only KC's game is final for both
    assert_eq!(tb.play_count[kc], 2);
    assert_eq!(tb.play_count[nyj], 2);
    assert_eq!(tb.play_count[ne], 1);
    assert_eq!(tb.play_count[dal], 1);
    assert_eq!(tb.common_games[buf], Some((0, 1, 1)));
    assert_eq!(tb.common_games[mia], Some((1, 0, 0)));
    assert_eq!(tb.head_to_head[nyj], None);
    assert_eq!(tb.division_record[kc], None);
}

#[test]
fn head_to_head_mirror_law() {
    let g = afc_east_season();
    let (buf, mia) = (idx("BUF"), idx("MIA"));
    let teams = vec![buf, mia];
    let tb = calculate_tiebreakers(&g, 2, &teams);
    let a = tb.head_to_head[buf].unwrap();
    let b = tb.head_to_head[mia].unwrap();
    assert_eq!((a.0, a.1, a.2), (b.1, b.0, b.2));
}

#[test]
fn tiebreakers_teams_of_two_divisions() {
    let g = afc_east_season();
    let (buf, kc) = (idx("BUF"), idx("KC"));
    let teams = vec![buf, kc];
    let tb = calculate_tiebreakers(&g, 2, &teams);
    assert_eq!(tb.head_to_head[buf], Some((0, 1, 0)));
    assert_eq!(tb.head_to_head[kc], Some((1, 0, 0)));
    assert_eq!(tb.division_record[buf], None);
    assert_eq!(tb.division_record[kc], None);
    assert_eq!(tb.conference_record[kc], Some((1, 1, 0)));
}

#[test]
fn tiebreakers_nothing_selected() {
    let g = afc_east_season();
    let tb = calculate_tiebreakers(&g, 0, &vec![]);
    assert!(tb.play_count.iter().all(|&c| c == 0));
    assert!(tb.head_to_head.iter().all(|r| r.is_none()));
    assert!(tb.common_games.iter().all(|r| r.is_none()));
}

#[test]
fn record_text() {
    assert_eq!(render_record("Head-to-Head", (2, 1, 0)), "Head-to-Head: 2-1");
    assert_eq!(render_record("Common Games", (2, 1, 1)), "Common Games: 2-1-1");
    assert_eq!(render_record("Conference Record", (0, 0, 0)), "Conference Record: 0-0");
    assert_eq!(team_record_label(idx("BUF"), (10, 7, 0)), "BUF (10-7)");
    assert_eq!(team_record_label(idx("NE"), (4, 12, 1)), "NE (4-12-1)");
}

#[test]
fn tiebreaker_lines_of_a_team() {
    let g = afc_east_season();
    let (buf, kc) = (idx("BUF"), idx("KC"));
    let tb = calculate_tiebreakers(&g, 2, &vec![buf, kc]);
    let (h, d, c, f) = tiebreaker_lines(&tb, buf);
    assert_eq!(h, "Head-to-Head: 0-1");
    assert_eq!(d, None);
    assert_eq!(c, "Common Games: 1-1");
    assert_eq!(f, "Conference Record: 1-2-1");
    let tb = calculate_tiebreakers(&g, 2, &vec![buf, idx("MIA")]);
    let (_, d, _, _) = tiebreaker_lines(&tb, buf);
    assert_eq!(d, Some("Divison Record: 1-1-1".to_string()));
}

#[test]
fn game_cells() {
    assert_eq!(game_cell(3, 24, 17, GameStatus::Final), ("Week 3: 24-17".to_string(), Some("text-success")));
    assert_eq!(game_cell(4, 10, 17, GameStatus::Final), ("Week 4: 10-17".to_string(), Some("text-danger")));
    assert_eq!(game_cell(5, 7, 7, GameStatus::Other), ("Week 5: 7-7".to_string(), Some("text-warning")));
    assert_eq!(game_cell(6, 0, 0, GameStatus::Scheduled), ("Week 6".to_string(), None));
    assert_eq!(game_cell(7, 3, 0, GameStatus::InProgress), ("Week 7: 3-0".to_string(), None));
    assert_eq!(game_cell(18, -1, 0, GameStatus::Final), ("Week 18: -1-0".to_string(), Some("text-danger")));
}

#[test]
fn checked_teams() {
    let mut checks = vec![false; 32];
    checks[0] = true;
    checks[5] = true;
    checks[31] = true;
    assert_eq!(selected_from_checks(&checks), vec![0, 5, 31]);
    assert_eq!(selected_from_checks(&vec![false; 32]), Vec::<usize>::new());
}

#[test]
fn opponent_table_rows() {
    let mut pc = vec![0usize; 32];
    assert_eq!(opponent_rows(&pc, 0).len(), 32);
    assert!(opponent_rows(&pc, 0).iter().all(|&(_, bold)| !bold));
    pc[3] = 2;
    pc[9] = 1;
    assert_eq!(opponent_rows(&pc, 2), vec![(3, true), (9, false)]);
}

#[test]
fn checked_tiebreakers_agree() {
    let g = afc_east_season();
    let (buf, mia, kc) = (idx("BUF"), idx("MIA"), idx("KC"));
    for teams in [vec![buf, mia], vec![buf, kc], vec![buf, mia, kc], vec![]] {
        assert!(tiebreaker_counts_fit(&g, &teams));
        let checked = checked_tiebreakers(&g, &teams).unwrap();
        assert_eq!(checked, calculate_tiebreakers(&g, teams.len(), &teams));
    }
}

#[test]
fn grid_columns_and_style() {
    assert_eq!(grid_columns(&vec![3, 1]), vec![3, 1]);
    assert_eq!(grid_columns(&vec![]), (0..32).collect::<Vec<usize>>());
    assert_eq!(grid_style(2), "grid-template-columns: repeat(3, max-content)");
    assert_eq!(grid_style(32), "grid-template-columns: repeat(33, max-content)");
}

#[test]
fn head_to_head_wins_match_losses() {
    let g = afc_east_season();
    let (buf, mia, nyj, kc) = (idx("BUF"), idx("MIA"), idx("NYJ"), idx("KC"));
    for teams in [vec![buf, mia, nyj], vec![buf, mia, kc], vec![buf, buf, mia]] {
        let tb = calculate_tiebreakers(&g, teams.len(), &teams);
        let wins: u32 = tb.head_to_head.iter().flatten().map(|r| r.0).sum();
        let losses: u32 = tb.head_to_head.iter().flatten().map(|r| r.1).sum();
        assert_eq!(wins, losses);
    }
}
