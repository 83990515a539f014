use mybops_wasm::items::{
    apply_item_updates, build_item_states, item_mode_layout, item_updates, modal_back, modal_forward, ItemMode,
    ItemRow, ItemState, ItemUpdate,
};
use mybops_wasm::items::{
    link_to_check, push_available, rating_column, remove_item, runs_item_query, save_refused, settle_save,
};
use mybops_wasm::lists::{List, User};
use mybops_wasm::lists::ItemMetadata;
use mybops_wasm::items::{shows_push, source_link, source_link_with, SourceLink};
use mybops_wasm::lists::{ListMode, Source, SourceType};
use mybops_wasm::sources::{Id, Spotify};

fn ids(v: &[&str]) -> Vec<String> {
    v.iter().map(|s| s.to_string()).collect()
}

fn row(id: &str, rating: Option<u64>, hidden: bool, note: &str) -> ItemRow {
    ItemRow { id: id.to_string(), rating, hidden, note: note.to_string() }
}

fn state(rating: Option<u64>, hidden: bool, note: &str) -> ItemState {
    ItemState { rating, hidden, note: note.to_string() }
}

#[test]
fn item_states_from_query_rows() {
    let items = ids(&["a", "b", "c"]);
    let rows = vec![row("c", Some(7), true, "great"), row("a", None, false, "")];
    let states = build_item_states(&items, &rows);
    assert_eq!(states, vec![state(None, false, ""), state(None, false, ""), state(Some(7), true, "great")]);
}

#[test]
fn item_states_last_row_and_last_item_win() {
    let items = ids(&["a", "b", "a"]);
    let rows = vec![row("a", Some(1), false, "first"), row("a", Some(2), true, "second")];
    let states = build_item_states(&items, &rows);
    assert_eq!(states, vec![state(None, false, ""), state(None, false, ""), state(Some(2), true, "second")]);
}

#[test]
fn save_sends_rating_and_changed_fields() {
    let items = ids(&["a", "b"]);
    let saved = vec![state(Some(3), false, "x"), state(None, true, "")];
    let current = vec![state(Some(4), false, "x"), state(None, true, "")];
    let updates = item_updates(&items, &saved, &current, &vec![true, true], &vec!["x".to_string(), "new".to_string()]);
    assert_eq!(
        updates,
        vec![
            ItemUpdate { index: 0, id: "a".to_string(), rating: Some(4), hidden: Some(true), note: None },
            ItemUpdate { index: 1, id: "b".to_string(), rating: None, hidden: None, note: Some("new".to_string()) },
        ]
    );
}

#[test]
fn save_settles_law() {
    let items = ids(&["a", "b"]);
    let saved = vec![state(Some(3), false, "x"), state(Some(9), true, "y")];
    let mut current = saved.clone();
    let hidden = vec![true, false];
    let notes = vec!["changed".to_string(), "y".to_string()];
    let first = item_updates(&items, &saved, &current, &hidden, &notes);
    apply_item_updates(&mut current, &first);
    assert_eq!(current, vec![state(Some(3), true, "changed"), state(Some(9), false, "y")]);
    let second = item_updates(&items, &current, &current, &hidden, &notes);
    assert!(second.iter().all(|u| u.hidden.is_none() && u.note.is_none()));
    assert_eq!(second.len(), 2);
}

#[test]
fn modal_navigation() {
    assert_eq!(modal_back(0, 3), 2);
    assert_eq!(modal_back(2, 3), 1);
    assert_eq!(modal_forward(2, 3), 0);
    assert_eq!(modal_forward(0, 3), 1);
    assert_eq!(modal_forward(0, 1), 0);
    assert_eq!(modal_back(0, 1), 0);
}

#[test]
fn modal_round_trip_law() {
    for len in 1..6 {
        for i in 0..len {
            assert_eq!(modal_back(modal_forward(i, len), len), i);
            assert_eq!(modal_forward(modal_back(i, len), len), i);
        }
    }
}

#[test]
fn item_layouts() {
    assert_eq!(item_mode_layout(&ItemMode::View), ("", "max-height: 800px"));
    assert_eq!(
        item_mode_layout(&ItemMode::Delete),
        ("grid-template-columns: auto max-content", "max-height: 800px; grid-template-columns: subgrid; grid-column: span 2")
    );
    assert_eq!(
        item_mode_layout(&ItemMode::Update).0,
        "grid-template-columns: auto max-content max-content max-content"
    );
}

#[test]
fn deleting_an_item_takes_it_out_everywhere() {
    let meta = |id: &str| ItemMetadata { id: id.into(), name: id.into(), iframe: None, score: 0, wins: 0, losses: 0 };
    let mut items = vec![meta("a"), meta("b"), meta("c")];
    let mut states = Some(vec![state(Some(1), false, "x"), state(Some(2), true, "y"), state(None, false, "")]);
    remove_item(&mut items, &mut states, 1);
    assert_eq!(items, vec![meta("a"), meta("c")]);
    assert_eq!(states, Some(vec![state(Some(1), false, "x"), state(None, false, "")]));
    let mut none: Option<Vec<ItemState>> = None;
    remove_item(&mut items, &mut none, 0);
    assert_eq!(items, vec![meta("c")]);
    assert_eq!(none, None);
}

#[test]
fn data_source_links() {
    let id = |raw: &str| Id { id: "x".into(), raw_id: raw.into() };
    let source = |st: SourceType| Source { source_type: st, name: "src".into() };
    assert_eq!(
        source_link(&source(SourceType::ListItems("42".into()))),
        SourceLink::List { href: "/lists/42".into(), name: "src".into() }
    );
    assert_eq!(
        source_link(&source(SourceType::Spotify(Spotify::Track(id("https://t"))))),
        SourceLink::Text { name: "src".into() }
    );
    assert_eq!(
        source_link(&source(SourceType::Custom("[]".into()))),
        SourceLink::Text { name: "src".into() }
    );
    let playlist = source(SourceType::Spotify(Spotify::Playlist(id("https://p"))));
    assert_eq!(source_link_with(&playlist, true), SourceLink::External { href: "https://p".into(), name: "src".into() });
    assert_eq!(source_link_with(&playlist, false), SourceLink::Text { name: "src".into() });
    let setlist = source(SourceType::Setlist(id("https://s")));
    assert_eq!(source_link_with(&setlist, true), SourceLink::External { href: "https://s".into(), name: "src".into() });
    let album = source(SourceType::Spotify(Spotify::Album(id("https://a"))));
    assert_eq!(source_link_with(&album, true), SourceLink::External { href: "https://a".into(), name: "src".into() });
    assert!(shows_push(&ListMode::User(None)));
    assert!(!shows_push(&ListMode::External));
}

#[test]
fn duplicated_state_is_independent() {
    let s = state(Some(4), true, "n");
    let mut c = s.duplicate();
    assert_eq!(c, s);
    c.rating = Some(9);
    assert_eq!(s.rating, Some(4));
}

#[test]
fn push_query_and_ratings() {
    let spotify = |raw: &str| Source {
        source_type: SourceType::Spotify(Spotify::Playlist(Id { id: "p".into(), raw_id: raw.into() })),
        name: String::new(),
    };
    let list = |sources: Vec<Source>| List {
        id: "1".into(),
        user_id: "me".into(),
        mode: ListMode::User(None),
        name: "n".into(),
        sources,
        iframe: None,
        items: vec![],
        favorite: false,
        public: false,
        query: String::new(),
    };
    let with_spotify = User { user_id: "me".into(), spotify_user: Some("sp".into()), spotify_url: None, google_email: None };
    let without = User { spotify_user: None, ..with_spotify.clone() };
    assert!(push_available(&list(vec![spotify("a"), spotify("b")]), &Some(with_spotify.clone())));
    assert!(!push_available(&list(vec![spotify("a")]), &Some(without)));
    assert!(!push_available(&list(vec![spotify("a")]), &None));
    assert!(!push_available(&list(vec![]), &Some(with_spotify.clone())));
    let mixed = vec![spotify("a"), Source { source_type: SourceType::ListItems("2".into()), name: String::new() }];
    assert!(!push_available(&list(mixed), &Some(with_spotify)));
    assert!(runs_item_query(&ListMode::User(None)));
    assert!(runs_item_query(&ListMode::External));
    assert!(!runs_item_query(&ListMode::View(None)));
    assert_eq!(rating_column(Some(vec![Some(3), None]), 2), vec![Some(3), None]);
    assert_eq!(rating_column(None, 3), vec![None, None, None]);
}

#[test]
fn links_handed_to_the_url_check() {
    let id = |raw: &str| Id { id: "x".into(), raw_id: raw.into() };
    let source = |st: SourceType| Source { source_type: st, name: "name".into() };
    assert_eq!(link_to_check(&source(SourceType::Spotify(Spotify::Playlist(id("https://p"))))), Some("https://p"));
    assert_eq!(link_to_check(&source(SourceType::Spotify(Spotify::Album(id("https://a"))))), Some("https://a"));
    assert_eq!(link_to_check(&source(SourceType::Setlist(id("https://s")))), Some("https://s"));
    assert_eq!(link_to_check(&source(SourceType::Spotify(Spotify::Track(id("https://t"))))), None);
    assert_eq!(link_to_check(&source(SourceType::ListItems("2".into()))), None);
    assert_eq!(link_to_check(&source(SourceType::Custom("[]".into()))), None);
}

#[test]
fn settling_a_save() {
    assert!(save_refused(400));
    assert!(save_refused(500));
    assert!(!save_refused(200));
    let update = ItemUpdate { index: 1, id: "b".into(), rating: Some(7), hidden: Some(true), note: None };
    let before = vec![state(Some(1), false, "x"), state(None, false, "y")];
    let mut saved = before.clone();
    let mut states = before.clone();
    settle_save(&mut saved, &mut states, &vec![update.clone()], false);
    assert_eq!(states, before);
    assert_eq!(saved, before);
    settle_save(&mut saved, &mut states, &vec![update], true);
    assert_eq!(states, vec![state(Some(1), false, "x"), state(Some(7), true, "y")]);
    assert_eq!(saved, states);
}
