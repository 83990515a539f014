use mybops_wasm::lists::{ItemMetadata, List, ListMode};
use mybops_wasm::api::{
    create_list_url, delete_all_urls, delete_items_url, find_items_url, google_login_url, import_list_url, is_query_error,
    list_edit_page_url, list_items_page_url, list_items_url, list_page_url, list_query_url, list_url, lists_url,
    push_list_url, rank_page_url, scoreboard_url, spotify_import_source, spotify_login_url, spotify_track_import,
    update_stats_url,
};

#[test]
fn server_addresses() {
    assert_eq!(lists_url(true), "/api/lists?favorite=true");
    assert_eq!(lists_url(false), "/api/lists?favorite=false");
    assert_eq!(list_url("abc"), "/api/lists/abc");
    assert_eq!(create_list_url(&None), "/api/lists");
    assert_eq!(create_list_url(&Some("SELECT 1".to_string())), "/api/lists?query=SELECT 1");
    assert_eq!(list_query_url("abc", &None), "/api/lists/abc/query");
    assert_eq!(list_query_url("abc", &Some("q".to_string())), "/api/lists/abc/query?query=q");
    assert_eq!(list_items_url("abc"), "/api/lists/abc/items");
    assert_eq!(update_stats_url("l", "w", "x"), "/api/?action=update&list=l&win=w&lose=x");
    assert_eq!(push_list_url("l"), "/api/?action=push&list=l");
    assert_eq!(import_list_url("spotify:track", "t1"), "/api/?action=import&source=spotify:track&id=t1");
    assert_eq!(find_items_url("SELECT"), "/api/items?q=search&query=SELECT");
    assert_eq!(delete_items_url(&vec!["a".to_string(), "b".to_string(), "c".to_string()]), "/api/items?ids=a,b,c");
    assert_eq!(delete_items_url(&vec![]), "/api/items?ids=");
    assert_eq!(
        scoreboard_url(7),
        "https://site.api.espn.com/apis/site/v2/sports/football/nfl/scoreboard?week=7"
    );
}

#[test]
fn query_errors() {
    assert!(is_query_error(400));
    assert!(is_query_error(500));
    assert!(!is_query_error(200));
    assert!(!is_query_error(404));
}

#[test]
fn page_addresses() {
    assert_eq!(list_page_url("x"), "/lists/x");
    assert_eq!(list_items_page_url("x"), "/lists/x/items");
    assert_eq!(list_edit_page_url("x"), "/lists/x/edit");
    assert_eq!(rank_page_url("Random Matches", "x"), Some("/lists/x/match".to_string()));
    assert_eq!(rank_page_url("Random Rounds", "x"), Some("/lists/x/match?mode=rounds".to_string()));
    assert_eq!(rank_page_url("Tournament", "x"), Some("/lists/x/tournament".to_string()));
    assert_eq!(rank_page_url("Random Tournament", "x"), Some("/lists/x/tournament?mode=random".to_string()));
    assert_eq!(rank_page_url("Other", "x"), None);
}

#[test]
fn login_addresses() {
    assert_eq!(
        spotify_login_url("https://mybops.example"),
        "https://accounts.spotify.com/authorize?client_id=ee3d1b4f8d80477ea48743a511ef3018&redirect_uri=https://mybops.example/api/login&response_type=code&scope=playlist-modify-public playlist-modify-private user-read-recently-played playlist-read-private"
    );
    assert_eq!(
        google_login_url("http://localhost"),
        "https://accounts.google.com/o/oauth2/v2/auth?client_id=1038220726403-n55jha2cvprd8kdb4akdfvo0uiok4p5u.apps.googleusercontent.com&redirect_uri=http://localhost/api/login/google&response_type=code&scope=email"
    );
}

#[test]
fn spotify_imports() {
    assert_eq!(
        spotify_import_source("https://open.spotify.com/playlist/5MztFbRbMpyxbVYuOSfQV9?si=9db089ab25274efa".to_string()),
        Some(("spotify:playlist", "5MztFbRbMpyxbVYuOSfQV9".to_string()))
    );
    assert_eq!(
        spotify_import_source("https://open.spotify.com/album/A1".to_string()),
        Some(("spotify:album", "A1".to_string()))
    );
    assert_eq!(
        spotify_import_source("https://open.spotify.com/track/T1".to_string()),
        Some(("spotify:track", "T1".to_string()))
    );
    assert_eq!(spotify_import_source("bad input".to_string()), None);
    assert_eq!(
        spotify_track_import("https://open.spotify.com/track/T1".to_string()),
        Some(("spotify:track", "T1".to_string()))
    );
    assert_eq!(spotify_track_import("https://open.spotify.com/album/A1".to_string()), None);
}

#[test]
fn deleting_a_list_with_its_items() {
    let meta = |id: &str| ItemMetadata { id: id.into(), name: id.into(), iframe: None, score: 0, wins: 0, losses: 0 };
    let list = List {
        id: "L1".into(),
        user_id: "me".into(),
        mode: ListMode::User(None),
        name: "n".into(),
        sources: vec![],
        iframe: None,
        items: vec![meta("a"), meta("b")],
        favorite: false,
        public: false,
        query: String::new(),
    };
    assert_eq!(delete_all_urls(&list), vec!["/api/items?ids=a,b".to_string(), "/api/lists/L1".to_string()]);
}
