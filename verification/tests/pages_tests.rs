use mybops_wasm::items::ItemMode;
use mybops_wasm::lists::{List, ListMode, User};
use mybops_wasm::lists::user_list;
use mybops_wasm::pages::{
    active_tab, data_view_from_label, initial_item_mode, item_mode_from_label, list_page, page_content,
    shows_item_mode_menu, sort_menu_label, uses_canvas, DataView, ListPage, ListsRoute, PageContent,
};
use mybops_wasm::pages::{list_route, owner_heading, shows_sort_menu};
use mybops_wasm::pages::{blocks_key, home_title, search_input_class, split_view_label, widget_toggle, WidgetToggle};
use mybops_wasm::lists::{edits_disabled, spotify_account};
use mybops_wasm::pages::{
    create_enabled, create_outcome, link_import_enabled, list_view_outcome, search_outcome, shows_settings,
    sidebar_account, track_import_shown,
};

#[test]
fn routes_to_pages() {
    assert_eq!(list_page(&ListsRoute::View, None), ListPage::View);
    assert_eq!(list_page(&ListsRoute::List, Some("random")), ListPage::List);
    assert_eq!(list_page(&ListsRoute::Edit, None), ListPage::Edit);
    assert_eq!(list_page(&ListsRoute::Tournament, Some("random")), ListPage::RandomTournament);
    assert_eq!(list_page(&ListsRoute::Tournament, None), ListPage::Tournament);
    assert_eq!(list_page(&ListsRoute::Match, Some("rounds")), ListPage::RandomRounds);
    assert_eq!(list_page(&ListsRoute::Match, Some("random")), ListPage::RandomMatches);
    assert_eq!(list_page(&ListsRoute::Match, None), ListPage::RandomMatches);
}

#[test]
fn menus_and_tabs() {
    assert_eq!(sort_menu_label(&ListPage::RandomRounds), "Random Rounds");
    assert_eq!(sort_menu_label(&ListPage::RandomTournament), "Random Tournament");
    assert_eq!(sort_menu_label(&ListPage::View), "Rank");
    assert_eq!(active_tab(&ListPage::List), Some(1));
    assert_eq!(active_tab(&ListPage::Tournament), None);
}

#[test]
fn page_contents_for_owner_and_visitor() {
    assert_eq!(page_content(&ListPage::Edit, true), PageContent::Edit);
    assert_eq!(page_content(&ListPage::Edit, false), PageContent::NotFound);
    assert_eq!(page_content(&ListPage::View, false), PageContent::ListView);
    assert_eq!(page_content(&ListPage::List, false), PageContent::ListItems);
    assert_eq!(page_content(&ListPage::RandomTournament, true), PageContent::RandomTournament);
    assert_eq!(page_content(&ListPage::RandomMatches, false), PageContent::NotFound);
}

#[test]
fn item_modes() {
    assert_eq!(initial_item_mode(&ListMode::View(None)), ItemMode::View);
    assert_eq!(initial_item_mode(&ListMode::External), ItemMode::Update);
    assert!(shows_item_mode_menu(&ListPage::List, &ListMode::User(None)));
    assert!(!shows_item_mode_menu(&ListPage::List, &ListMode::View(None)));
    assert!(!shows_item_mode_menu(&ListPage::View, &ListMode::User(None)));
    assert_eq!(item_mode_from_label("Update"), Some(ItemMode::Update));
    assert_eq!(item_mode_from_label("Delete"), Some(ItemMode::Delete));
    assert_eq!(item_mode_from_label("View"), None);
}

#[test]
fn data_views() {
    assert_eq!(data_view_from_label("Table"), Some(DataView::Table));
    assert_eq!(data_view_from_label("Column Graph"), Some(DataView::ColumnGraph));
    assert_eq!(data_view_from_label("Line Graph"), Some(DataView::LineGraph));
    assert_eq!(data_view_from_label("Scatter Plot"), Some(DataView::ScatterPlot));
    assert_eq!(data_view_from_label("Cumulative Line Graph"), Some(DataView::CumLineGraph));
    assert_eq!(data_view_from_label("CSV"), Some(DataView::Csv));
    assert_eq!(data_view_from_label("Pie"), None);
    assert!(!uses_canvas(&DataView::Table));
    assert!(!uses_canvas(&DataView::Csv));
    assert!(uses_canvas(&DataView::ScatterPlot));
}

fn list_of(user_id: &str) -> List {
    List {
        id: "1".to_string(),
        user_id: user_id.to_string(),
        mode: ListMode::User(None),
        name: "n".to_string(),
        sources: vec![],
        iframe: None,
        items: vec![],
        favorite: false,
        public: false,
        query: String::new(),
    }
}

#[test]
fn list_ownership() {
    let user = User { user_id: "me".to_string(), spotify_user: None, spotify_url: None, google_email: None };
    assert!(user_list(&list_of("me"), &Some(user.clone())));
    assert!(!user_list(&list_of("demo"), &Some(user)));
    assert!(user_list(&list_of("demo"), &None));
    assert!(!user_list(&list_of("me"), &None));
}

#[test]
fn list_routes_and_headings() {
    assert_eq!(list_route(""), Some(ListsRoute::View));
    assert_eq!(list_route("/items"), Some(ListsRoute::List));
    assert_eq!(list_route("/edit"), Some(ListsRoute::Edit));
    assert_eq!(list_route("/match"), Some(ListsRoute::Match));
    assert_eq!(list_route("/tournament"), Some(ListsRoute::Tournament));
    assert_eq!(list_route("/items/1"), None);
    assert_eq!(owner_heading("bob", false), Some("bob's list".to_string()));
    assert_eq!(owner_heading("bob", true), None);
    assert!(shows_sort_menu(&ListMode::User(None)));
    assert!(shows_sort_menu(&ListMode::External));
    assert!(!shows_sort_menu(&ListMode::View(None)));
}

#[test]
fn home_and_query_pages() {
    assert_eq!(home_title(true), "Home");
    assert_eq!(home_title(false), "Demo");
    assert_eq!(widget_toggle(false, true), WidgetToggle::Load);
    assert_eq!(widget_toggle(true, true), WidgetToggle::Collapse(false));
    assert_eq!(widget_toggle(true, false), WidgetToggle::Collapse(true));
    assert_eq!(split_view_label(true), "Single View");
    assert_eq!(split_view_label(false), "Split View");
    assert_eq!(search_input_class(true), "flex-grow-1 is-invalid");
    assert_eq!(search_input_class(false), "flex-grow-1");
    assert!(blocks_key(13));
    assert!(!blocks_key(32));
}

#[test]
fn edit_controls_and_accounts() {
    let user = User { user_id: "me".to_string(), spotify_user: Some("sp".to_string()), spotify_url: Some("https://sp".to_string()), google_email: None };
    assert!(!edits_disabled(&list_of("me"), &Some(user.clone())));
    assert!(edits_disabled(&list_of("you"), &Some(user.clone())));
    assert!(edits_disabled(&list_of("demo"), &None));
    assert_eq!(spotify_account(&user), Some(("https://sp".to_string(), "sp".to_string())));
    let partial = User { spotify_url: None, ..user };
    assert_eq!(spotify_account(&partial), None);
}

#[test]
fn small_page_steps() {
    assert!(link_import_enabled(true));
    assert!(!link_import_enabled(false));
    assert!(track_import_shown(false));
    assert!(!track_import_shown(true));
    assert_eq!(search_outcome(Some(1), Ok(Some(2))), (Some(2), None));
    assert_eq!(search_outcome(Some(1), Ok(None)), (None, None));
    assert_eq!(search_outcome(Some(1), Err("bad".to_string())), (Some(1), Some("bad".to_string())));
    assert_eq!(create_outcome(Some("old".to_string()), Ok(())), Some("old".to_string()));
    assert_eq!(create_outcome(None, Err("no".to_string())), Some("no".to_string()));
    assert!(create_enabled(true));
    assert!(!create_enabled(false));
    assert_eq!(list_view_outcome::<u8>(Some("e".to_string()), Ok(None)), (None, Some("e".to_string())));
    assert_eq!(list_view_outcome(Some("e".to_string()), Ok(Some(5u8))), (Some(5), None));
    assert_eq!(list_view_outcome::<u8>(None, Err(Some("x".to_string()))), (None, Some("x".to_string())));
    let user = User { user_id: "me".to_string(), spotify_user: None, spotify_url: None, google_email: None };
    assert!(shows_settings(&Some(user.clone())));
    assert!(!shows_settings(&None));
    assert_eq!(sidebar_account(&Some(user)), Some("me".to_string()));
    assert_eq!(sidebar_account(&None), None);
}
