//! Which page, tab, menu and view the client shows for a route and a list.

use vstd::prelude::*;
use crate::items::ItemMode;
use crate::lists::{ListMode, User};
use crate::text::str_eq;

verus! {

/// The routes under a list.
#[derive(Clone, Debug, PartialEq, Eq)]
pub enum ListsRoute {
    View,
    List,
    Edit,
    Match,
    Tournament,
}

/// The route of a list page from the part of its path after the list's id.
pub open spec fn spec_list_route(suffix: Seq<char>) -> Option<ListsRoute> {
    if suffix == ""@ {
        Some(ListsRoute::View)
    } else if suffix == "/items"@ {
        Some(ListsRoute::List)
    } else if suffix == "/edit"@ {
        Some(ListsRoute::Edit)
    } else if suffix == "/match"@ {
        Some(ListsRoute::Match)
    } else if suffix == "/tournament"@ {
        Some(ListsRoute::Tournament)
    } else {
        None
    }
}

/// Reads the route of a list page: `/lists/:id` followed by nothing,
/// `/items`, `/edit`, `/match` or `/tournament`.
pub fn list_route(suffix: &str) -> (r: Option<ListsRoute>)
    ensures
        r == spec_list_route(suffix@),
{
    proof {
        reveal_strlit("");
    }
    if str_eq(suffix, "") {
        Some(ListsRoute::View)
    } else if str_eq(suffix, "/items") {
        Some(ListsRoute::List)
    } else if str_eq(suffix, "/edit") {
        Some(ListsRoute::Edit)
    } else if str_eq(suffix, "/match") {
        Some(ListsRoute::Match)
    } else if str_eq(suffix, "/tournament") {
        Some(ListsRoute::Tournament)
    } else {
        None
    }
}

/// The pages of a list.
#[derive(Clone, Debug, PartialEq, Eq)]
pub enum ListPage {
    View,
    List,
    Edit,
    RandomMatches,
    RandomRounds,
    Tournament,
    RandomTournament,
}

/// The page of a route, given the route's `mode` query parameter.
pub open spec fn spec_list_page(route: ListsRoute, mode: Option<Seq<char>>) -> ListPage {
    match route {
        ListsRoute::View => ListPage::View,
        ListsRoute::List => ListPage::List,
        ListsRoute::Edit => ListPage::Edit,
        ListsRoute::Tournament => if mode == Some("random"@) {
            ListPage::RandomTournament
        } else {
            ListPage::Tournament
        },
        ListsRoute::Match => if mode == Some("rounds"@) {
            ListPage::RandomRounds
        } else {
            ListPage::RandomMatches
        },
    }
}

/// The page of a list that a route shows.
pub fn list_page(route: &ListsRoute, mode: Option<&str>) -> (p: ListPage)
    ensures
        p == spec_list_page(*route, match mode { Some(m) => Some(m@), None => None }),
{
    match route {
        ListsRoute::View => ListPage::View,
        ListsRoute::List => ListPage::List,
        ListsRoute::Edit => ListPage::Edit,
        ListsRoute::Tournament => {
            let random = match mode {
                Some(m) => str_eq(m, "random"),
                None => false,
            };
            if random {
                ListPage::RandomTournament
            } else {
                ListPage::Tournament
            }
        },
        ListsRoute::Match => {
            let rounds = match mode {
                Some(m) => str_eq(m, "rounds"),
                None => false,
            };
            if rounds {
                ListPage::RandomRounds
            } else {
                ListPage::RandomMatches
            }
        },
    }
}

/// The label of the sort mode menu on a page.
pub fn sort_menu_label(page: &ListPage) -> (s: &'static str)
    ensures
        s@ == match page {
            ListPage::RandomMatches => "Random Matches"@,
            ListPage::RandomRounds => "Random Rounds"@,
            ListPage::Tournament => "Tournament"@,
            ListPage::RandomTournament => "Random Tournament"@,
            _ => "Rank"@,
        },
{
    match page {
        ListPage::RandomMatches => "Random Matches",
        ListPage::RandomRounds => "Random Rounds",
        ListPage::Tournament => "Tournament",
        ListPage::RandomTournament => "Random Tournament",
        _ => "Rank",
    }
}

/// The tab of a page among View, Items and Settings, if it has one.
pub fn active_tab(page: &ListPage) -> (t: Option<usize>)
    ensures
        t == match page {
            ListPage::View => Some(0usize),
            ListPage::List => Some(1usize),
            ListPage::Edit => Some(2usize),
            _ => None,
        },
{
    match page {
        ListPage::View => Some(0),
        ListPage::List => Some(1),
        ListPage::Edit => Some(2),
        _ => None,
    }
}

/// What a list page shows.
#[derive(Clone, Debug, PartialEq, Eq)]
pub enum PageContent {
    ListView,
    ListItems,
    Edit,
    RandomMatches,
    RandomRounds,
    RandomTournament,
    Tournament,
    NotFound,
}

/// What a list page shows: every page to the list's owner, only the view and
/// the items to anyone else.
pub open spec fn spec_page_content(page: ListPage, owner: bool) -> PageContent {
    match page {
        ListPage::View => PageContent::ListView,
        ListPage::List => PageContent::ListItems,
        ListPage::Edit => if owner { PageContent::Edit } else { PageContent::NotFound },
        ListPage::RandomMatches => if owner { PageContent::RandomMatches } else { PageContent::NotFound },
        ListPage::RandomRounds => if owner { PageContent::RandomRounds } else { PageContent::NotFound },
        ListPage::RandomTournament => if owner { PageContent::RandomTournament } else { PageContent::NotFound },
        ListPage::Tournament => if owner { PageContent::Tournament } else { PageContent::NotFound },
    }
}

/// Chooses what a list page shows.
pub fn page_content(page: &ListPage, owner: bool) -> (c: PageContent)
    ensures
        c == spec_page_content(*page, owner),
{
    match page {
        ListPage::View => PageContent::ListView,
        ListPage::List => PageContent::ListItems,
        ListPage::Edit => if owner { PageContent::Edit } else { PageContent::NotFound },
        ListPage::RandomMatches => if owner { PageContent::RandomMatches } else { PageContent::NotFound },
        ListPage::RandomRounds => if owner { PageContent::RandomRounds } else { PageContent::NotFound },
        ListPage::RandomTournament => if owner { PageContent::RandomTournament } else { PageContent::NotFound },
        ListPage::Tournament => if owner { PageContent::Tournament } else { PageContent::NotFound },
    }
}

/// The heading above a list page that someone else owns: `<owner>'s list`.
pub fn owner_heading(user_id: &str, owner: bool) -> (r: Option<String>)
    ensures
        match r {
            Some(h) => !owner && h@ == user_id@ + "'s list"@,
            None => owner,
        },
{
    if owner {
        None
    } else {
        let mut h = String::from_str(user_id);
        h.append("'s list");
        Some(h)
    }
}

/// The item page starts in view mode for a view list and in update mode otherwise.
pub fn initial_item_mode(mode: &ListMode) -> (m: ItemMode)
    ensures
        match mode {
            ListMode::View(_) => m is View,
            _ => m is Update,
        },
{
    match mode {
        ListMode::View(_) => ItemMode::View,
        _ => ItemMode::Update,
    }
}

/// The sort mode menu is offered for lists that are not views.
pub fn shows_sort_menu(mode: &ListMode) -> (r: bool)
    ensures
        r == !(*mode is View),
{
    match mode {
        ListMode::View(_) => false,
        _ => true,
    }
}

/// The item mode menu is offered on the item page of a list that is not a view.
pub fn shows_item_mode_menu(page: &ListPage, mode: &ListMode) -> (r: bool)
    ensures
        r == (*page is List && !(*mode is View)),
{
    let on_items = match page {
        ListPage::List => true,
        _ => false,
    };
    let is_view = match mode {
        ListMode::View(_) => true,
        _ => false,
    };
    on_items && !is_view
}

/// The item mode chosen by its name in the item mode menu.
pub fn item_mode_from_label(label: &str) -> (m: Option<ItemMode>)
    ensures
        match m {
            Some(ItemMode::Update) => label@ == "Update"@,
            Some(ItemMode::Delete) => label@ == "Delete"@,
            Some(ItemMode::View) => false,
            None => label@ != "Update"@ && label@ != "Delete"@,
        },
{
    if str_eq(label, "Update") {
        Some(ItemMode::Update)
    } else if str_eq(label, "Delete") {
        Some(ItemMode::Delete)
    } else {
        None
    }
}

/// The ways of showing the result of a query.
#[derive(Clone, Debug, PartialEq, Eq)]
pub enum DataView {
    Table,
    ColumnGraph,
    LineGraph,
    ScatterPlot,
    CumLineGraph,
    Csv,
}

/// The view chosen by its name in the view menu.
pub open spec fn spec_data_view(label: Seq<char>) -> Option<DataView> {
    if label == "Table"@ {
        Some(DataView::Table)
    } else if label == "Column Graph"@ {
        Some(DataView::ColumnGraph)
    } else if label == "Line Graph"@ {
        Some(DataView::LineGraph)
    } else if label == "Scatter Plot"@ {
        Some(DataView::ScatterPlot)
    } else if label == "Cumulative Line Graph"@ {
        Some(DataView::CumLineGraph)
    } else if label == "CSV"@ {
        Some(DataView::Csv)
    } else {
        None
    }
}

/// Reads the view menu.
pub fn data_view_from_label(label: &str) -> (v: Option<DataView>)
    ensures
        v == spec_data_view(label@),
{
    if str_eq(label, "Table") {
        Some(DataView::Table)
    } else if str_eq(label, "Column Graph") {
        Some(DataView::ColumnGraph)
    } else if str_eq(label, "Line Graph") {
        Some(DataView::LineGraph)
    } else if str_eq(label, "Scatter Plot") {
        Some(DataView::ScatterPlot)
    } else if str_eq(label, "Cumulative Line Graph") {
        Some(DataView::CumLineGraph)
    } else if str_eq(label, "CSV") {
        Some(DataView::Csv)
    } else {
        None
    }
}

/// Views drawn as a chart on the canvas; the table and CSV views hide it.
pub fn uses_canvas(view: &DataView) -> (r: bool)
    ensures
        r == !(*view is Table || *view is Csv),
{
    match view {
        DataView::Table | DataView::Csv => false,
        _ => true,
    }
}

/// The title of the home page: the signed-in user's home, or the demo.
pub fn home_title(logged_in: bool) -> (s: &'static str)
    ensures
        s@ == if logged_in { "Home"@ } else { "Demo"@ },
{
    if logged_in {
        "Home"
    } else {
        "Demo"
    }
}

/// What toggling a list widget on the home page does.
#[derive(Clone, Copy, Debug, PartialEq, Eq)]
pub enum WidgetToggle {
    /// Run the list's query, then show the widget open.
    Load,
    /// Show the widget collapsed or open, as given.
    Collapse(bool),
}

/// The first toggle of a widget loads its list's query; later toggles open
/// and close it.
pub fn widget_toggle(loaded: bool, collapsed: bool) -> (r: WidgetToggle)
    ensures
        r == if loaded { WidgetToggle::Collapse(!collapsed) } else { WidgetToggle::Load },
{
    if loaded {
        WidgetToggle::Collapse(!collapsed)
    } else {
        WidgetToggle::Load
    }
}

/// The label of the query page's view button, which switches to the other view.
pub fn split_view_label(split: bool) -> (s: &'static str)
    ensures
        s@ == if split { "Single View"@ } else { "Split View"@ },
{
    if split {
        "Single View"
    } else {
        "Split View"
    }
}

/// The class of the query box, marked invalid while there is an error.
pub fn search_input_class(has_error: bool) -> (s: &'static str)
    ensures
        s@ == if has_error { "flex-grow-1 is-invalid"@ } else { "flex-grow-1"@ },
{
    if has_error {
        "flex-grow-1 is-invalid"
    } else {
        "flex-grow-1"
    }
}

/// The query box keeps the Enter key (code 13) from submitting the page.
pub fn blocks_key(key_code: u32) -> (r: bool)
    ensures
        r == (key_code == 13),
{
    key_code == 13
}

/// The Spotify page imports a typed link only for a signed-in user, whose
/// account the import goes to.
pub fn link_import_enabled(logged_in: bool) -> (r: bool)
    ensures
        r == logged_in,
{
    logged_in
}

/// A recently played track offers an Import button while it has no score.
pub fn track_import_shown(scored: bool) -> (r: bool)
    ensures
        r == !scored,
{
    !scored
}

/// The query pane after a search: an answer replaces the result and clears
/// the error; an error is shown and the last result stays.
pub fn search_outcome<T>(result_before: Option<T>, answer: Result<Option<T>, String>) -> (r: (Option<T>, Option<String>))
    ensures
        match answer {
            Ok(q) => r.0 == q && r.1 is None,
            Err(e) => r.0 == result_before && r.1 == Some(e),
        },
{
    match answer {
        Ok(q) => (q, None),
        Err(e) => (result_before, Some(e)),
    }
}

/// The query pane's error after creating a list from its query: a failure is
/// shown, a success leaves the error as it was.
pub fn create_outcome(error_before: Option<String>, answer: Result<(), String>) -> (r: Option<String>)
    ensures
        match answer {
            Ok(()) => r == error_before,
            Err(e) => r == Some(e),
        },
{
    match answer {
        Ok(()) => error_before,
        Err(e) => Some(e),
    }
}

/// Creating a list from the query pane is offered once a search has a result.
pub fn create_enabled(has_result: bool) -> (r: bool)
    ensures
        r == has_result,
{
    has_result
}

/// A list's view after its query answers: no table for an empty answer, which
/// leaves the error as it was; a table clears the error; a failure shows its
/// message, if it has one, and no table.
pub fn list_view_outcome<T>(error_before: Option<String>, answer: Result<Option<T>, Option<String>>) -> (r: (Option<T>, Option<String>))
    ensures
        match answer {
            Ok(None) => r.0 is None && r.1 == error_before,
            Ok(Some(d)) => r.0 == Some(d) && r.1 is None,
            Err(e) => r.0 is None && r.1 == e,
        },
{
    match answer {
        Ok(None) => (None, error_before),
        Ok(Some(d)) => (Some(d), None),
        Err(e) => (None, e),
    }
}

/// The settings page is there for a signed-in user; anyone else finds nothing.
pub fn shows_settings(user: &Option<User>) -> (r: bool)
    ensures
        r == user is Some,
{
    match user {
        Some(_) => true,
        None => false,
    }
}

/// What the sidebar shows at its foot: the signed-in user's name, with the
/// settings and log-out menu, or `None` for the log-in link.
pub fn sidebar_account(user: &Option<User>) -> (r: Option<String>)
    ensures
        match user {
            Some(u) => r matches Some(n) && n@ == u.user_id@,
            None => r is None,
        },
{
    match user {
        Some(u) => Some(u.user_id.clone()),
        None => None,
    }
}

/// The page that a content shows, if it shows one.
pub open spec fn page_of_content(c: PageContent) -> Option<ListPage> {
    match c {
        PageContent::ListView => Some(ListPage::View),
        PageContent::ListItems => Some(ListPage::List),
        PageContent::Edit => Some(ListPage::Edit),
        PageContent::RandomMatches => Some(ListPage::RandomMatches),
        PageContent::RandomRounds => Some(ListPage::RandomRounds),
        PageContent::RandomTournament => Some(ListPage::RandomTournament),
        PageContent::Tournament => Some(ListPage::Tournament),
        PageContent::NotFound => None,
    }
}

/// The owner of a list sees the very page that was routed, and two pages never
/// show the same content; anyone else sees the view and the items, and finds
/// nothing on the owner's pages.
pub proof fn law_page_content_is_routed_page(p: ListPage, q: ListPage)
    ensures
        page_of_content(spec_page_content(p, true)) == Some(p),
        spec_page_content(p, true) == spec_page_content(q, true) ==> p == q,
        page_of_content(spec_page_content(p, false)) == if p is View || p is List { Some(p) } else { None },
{
}

} // verus!
