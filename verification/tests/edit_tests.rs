use mybops_wasm::edit::{
    apply_settings, build_sources, delete_all_prompt, delete_list_prompt, mode_label, read_source, source_form,
    SettingsForm,
};
use mybops_wasm::lists::{List, ListMode, Source, SourceType};
use mybops_wasm::sources::{Id, Spotify};

fn rows(v: &[(&str, &str)]) -> Vec<(String, String)> {
    v.iter().map(|(a, b)| (a.to_string(), b.to_string())).collect()
}

fn id(id: &str, raw: &str) -> Id {
    Id { id: id.to_string(), raw_id: raw.to_string() }
}

fn source(t: SourceType) -> Source {
    Source { source_type: t, name: String::new() }
}

fn list(mode: ListMode) -> List {
    List {
        id: "l1".to_string(),
        user_id: "u".to_string(),
        mode,
        name: "Old name".to_string(),
        sources: vec![source(SourceType::ListItems("x".to_string()))],
        iframe: None,
        items: vec![],
        favorite: false,
        public: false,
        query: "SELECT 1".to_string(),
    }
}

fn form(name: &str, external: &str, sources: &[(&str, &str)]) -> SettingsForm {
    SettingsForm {
        name: name.to_string(),
        external_id: external.to_string(),
        query: "SELECT name FROM item".to_string(),
        favorite: true,
        public: true,
        sources: rows(sources),
    }
}

#[test]
fn sources_of_every_kind() {
    let playlist = "https://open.spotify.com/playlist/abc";
    let setlist = "https://www.setlist.fm/setlist/band-12ab.html";
    let r = build_sources(&rows(&[
        ("Spotify", playlist),
        ("Custom", "{\"name\": \"x\"}"),
        ("Setlist", setlist),
        ("List Items", "list-2"),
    ]))
    .unwrap();
    assert_eq!(
        r,
        vec![
            source(SourceType::Spotify(Spotify::Playlist(id("abc", playlist)))),
            source(SourceType::Custom("{\"name\": \"x\"}".to_string())),
            source(SourceType::Setlist(id("12ab", setlist))),
            source(SourceType::ListItems("list-2".to_string())),
        ]
    );
}

#[test]
fn invalid_sources() {
    assert_eq!(build_sources(&rows(&[("Custom", "not json")])), None);
    assert_eq!(build_sources(&rows(&[("Spotify", "https://example.com")])), None);
    assert_eq!(build_sources(&rows(&[("Setlist", "https://www.setlist.fm/setlist/x.html")])), None);
    assert_eq!(build_sources(&rows(&[("Other", "x")])), None);
    assert_eq!(build_sources(&rows(&[("List Items", "a"), ("Custom", "{")])), None);
    assert_eq!(build_sources(&rows(&[])), Some(vec![]));
}

#[test]
fn json_check_decides_custom_sources() {
    assert!(read_source("Custom", "[1, 2, 3]".to_string(), true).is_some());
    assert!(read_source("Custom", "[1, 2, 3]".to_string(), false).is_none());
    assert_eq!(build_sources(&rows(&[("Custom", "[1, 2, 3]")])).map(|v| v.len()), Some(1));
    assert_eq!(build_sources(&rows(&[("Custom", "[1, 2,")])), None);
}

#[test]
fn settings_are_taken_into_the_list() {
    let mut l = list(ListMode::User(None));
    let ok = apply_settings(&mut l, &form("New", "https://open.spotify.com/playlist/pl1", &[("List Items", "y")]));
    assert!(ok);
    assert_eq!(l.name, "New");
    assert_eq!(l.mode, ListMode::User(Some(id("pl1", "https://open.spotify.com/playlist/pl1"))));
    assert_eq!(l.query, "SELECT name FROM item");
    assert!(l.favorite && l.public);
    assert_eq!(l.sources, vec![source(SourceType::ListItems("y".to_string()))]);
    assert_eq!(l.id, "l1");
}

#[test]
fn external_lists_keep_their_name() {
    let mut l = list(ListMode::External);
    assert!(apply_settings(&mut l, &form("New", "", &[])));
    assert_eq!(l.name, "Old name");
    assert_eq!(l.mode, ListMode::External);
}

#[test]
fn external_id_cleared_or_kept() {
    let existing = Some(id("old", "https://open.spotify.com/playlist/old"));
    let mut l = list(ListMode::View(existing.clone()));
    assert!(apply_settings(&mut l, &form("n", "https://open.spotify.com/album/al", &[])));
    assert_eq!(l.mode, ListMode::View(existing.clone()));
    assert!(apply_settings(&mut l, &form("n", "", &[])));
    assert_eq!(l.mode, ListMode::View(None));
}

#[test]
fn invalid_source_leaves_list_unchanged() {
    let mut l = list(ListMode::User(None));
    let before = l.clone();
    assert!(!apply_settings(&mut l, &form("New", "", &[("Custom", "{oops")])));
    assert_eq!(l, before);
}

#[test]
fn source_rows_of_the_form() {
    assert_eq!(source_form(&None), (1, String::new()));
    assert_eq!(source_form(&Some(SourceType::Custom("{}".to_string()))), (0, "{}".to_string()));
    assert_eq!(
        source_form(&Some(SourceType::Spotify(Spotify::Track(id("t", "raw-track"))))),
        (1, "raw-track".to_string())
    );
    assert_eq!(source_form(&Some(SourceType::Setlist(id("s", "raw-setlist")))), (2, "raw-setlist".to_string()));
    assert_eq!(source_form(&Some(SourceType::ListItems("l9".to_string()))), (3, "l9".to_string()));
}

#[test]
fn labels_and_prompts() {
    assert_eq!(mode_label(&ListMode::User(None)), "User");
    assert_eq!(mode_label(&ListMode::External), "External");
    assert_eq!(mode_label(&ListMode::View(None)), "View");
    assert_eq!(delete_list_prompt("abc"), "Delete abc?");
    assert_eq!(delete_all_prompt("abc"), "Delete all items in abc and list?");
}
