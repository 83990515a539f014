//! The addresses that the client requests from its server and the pages it
//! links to, and how it reads the server's answers.

use vstd::prelude::*;
use crate::lists::{ItemMetadata, List};
use crate::sources::{Spotify, spotify_link_read};
use crate::text::{bool_str, bool_text, i64_text, int_text, join, joined};

verus! {

fn concat2(a: &str, b: &str) -> (s: String)
    ensures
        s@ == a@ + b@,
{
    let mut s = String::from_str(a);
    s.append(b);
    s
}

fn concat3(a: &str, b: &str, c: &str) -> (s: String)
    ensures
        s@ == a@ + b@ + c@,
{
    let mut s = String::from_str(a);
    s.append(b);
    s.append(c);
    s
}

/// The lists, all or the favorites only.
pub fn lists_url(favorite: bool) -> (s: String)
    ensures
        s@ == "/api/lists?favorite="@ + bool_text(favorite),
{
    concat2("/api/lists?favorite=", bool_str(favorite))
}

/// One list; also where it is updated and deleted.
pub fn list_url(id: &str) -> (s: String)
    ensures
        s@ == "/api/lists/"@ + id@,
{
    concat2("/api/lists/", id)
}

/// Where a list is created, from a query when one is given.
pub fn create_list_url(query: &Option<String>) -> (s: String)
    ensures
        s@ == match query {
            Some(q) => "/api/lists?query="@ + q@,
            None => "/api/lists"@,
        },
{
    match query {
        Some(q) => concat2("/api/lists?query=", q.as_str()),
        None => String::from_str("/api/lists"),
    }
}

/// The query over a list's items, with the list's own query when none is given.
pub fn list_query_url(id: &str, query: &Option<String>) -> (s: String)
    ensures
        s@ == match query {
            Some(q) => "/api/lists/"@ + id@ + "/query?query="@ + q@,
            None => "/api/lists/"@ + id@ + "/query"@,
        },
{
    match query {
        Some(q) => {
            let mut s = concat3("/api/lists/", id, "/query?query=");
            s.append(q.as_str());
            s
        },
        None => concat3("/api/lists/", id, "/query"),
    }
}

/// The items of a list.
pub fn list_items_url(id: &str) -> (s: String)
    ensures
        s@ == "/api/lists/"@ + id@ + "/items"@,
{
    concat3("/api/lists/", id, "/items")
}

/// Where the result of a match is reported: `win` beat `lose` in `list`.
pub fn update_stats_url(list: &str, win: &str, lose: &str) -> (s: String)
    ensures
        s@ == "/api/?action=update&list="@ + list@ + "&win="@ + win@ + "&lose="@ + lose@,
{
    let mut s = concat2("/api/?action=update&list=", list);
    s.append("&win=");
    s.append(win);
    s.append("&lose=");
    s.append(lose);
    s
}

/// Where a list is pushed to its external playlist.
pub fn push_list_url(id: &str) -> (s: String)
    ensures
        s@ == "/api/?action=push&list="@ + id@,
{
    concat2("/api/?action=push&list=", id)
}

/// Where an external source is imported.
pub fn import_list_url(source: &str, id: &str) -> (s: String)
    ensures
        s@ == "/api/?action=import&source="@ + source@ + "&id="@ + id@,
{
    let mut s = concat3("/api/?action=import&source=", source, "&id=");
    s.append(id);
    s
}

/// The search over all items.
pub fn find_items_url(search: &str) -> (s: String)
    ensures
        s@ == "/api/items?q=search&query="@ + search@,
{
    concat2("/api/items?q=search&query=", search)
}

/// Where items are deleted, by their ids joined with commas.
pub fn delete_items_url(ids: &Vec<String>) -> (s: String)
    ensures
        s@ == "/api/items?ids="@ + joined(ids@.map_values(|i: String| i@), ","@),
{
    let joined_ids = join(ids, ",");
    concat2("/api/items?ids=", joined_ids.as_str())
}

/// The scoreboard of an NFL week.
pub fn scoreboard_url(week: i32) -> (s: String)
    ensures
        s@ == "https://site.api.espn.com/apis/site/v2/sports/football/nfl/scoreboard?week="@ + int_text(
            week as int,
        ),
{
    let w = i64_text(week as i64);
    concat2("https://site.api.espn.com/apis/site/v2/sports/football/nfl/scoreboard?week=", w.as_str())
}

/// A query answer with one of these statuses carries an error message instead of data.
pub fn is_query_error(status: u16) -> (r: bool)
    ensures
        r == (status == 400 || status == 500),
{
    status == 400 || status == 500
}

/// The page of a list.
pub fn list_page_url(id: &str) -> (s: String)
    ensures
        s@ == "/lists/"@ + id@,
{
    concat2("/lists/", id)
}

/// The item page of a list.
pub fn list_items_page_url(id: &str) -> (s: String)
    ensures
        s@ == "/lists/"@ + id@ + "/items"@,
{
    concat3("/lists/", id, "/items")
}

/// The settings page of a list, where a new list is opened.
pub fn list_edit_page_url(id: &str) -> (s: String)
    ensures
        s@ == "/lists/"@ + id@ + "/edit"@,
{
    concat3("/lists/", id, "/edit")
}

/// The page of a sort mode of a list, chosen by its name in the home page's
/// sort mode menu; `None` for a name that is not a sort mode.
pub fn rank_page_url(mode: &str, id: &str) -> (s: Option<String>)
    ensures
        s matches Some(u) ==> (mode@ == "Random Matches"@ && u@ == "/lists/"@ + id@ + "/match"@) || (mode@
            == "Random Rounds"@ && u@ == "/lists/"@ + id@ + "/match?mode=rounds"@) || (mode@ == "Tournament"@
            && u@ == "/lists/"@ + id@ + "/tournament"@) || (mode@ == "Random Tournament"@ && u@ == "/lists/"@
            + id@ + "/tournament?mode=random"@),
        s is None <==> (mode@ != "Random Matches"@ && mode@ != "Random Rounds"@ && mode@ != "Tournament"@
            && mode@ != "Random Tournament"@),
{
    if crate::text::str_eq(mode, "Random Matches") {
        Some(concat3("/lists/", id, "/match"))
    } else if crate::text::str_eq(mode, "Random Rounds") {
        Some(concat3("/lists/", id, "/match?mode=rounds"))
    } else if crate::text::str_eq(mode, "Tournament") {
        Some(concat3("/lists/", id, "/tournament"))
    } else if crate::text::str_eq(mode, "Random Tournament") {
        Some(concat3("/lists/", id, "/tournament?mode=random"))
    } else {
        None
    }
}

/// The Spotify sign-in page, returning to `origin`.
pub fn spotify_login_url(origin: &str) -> (s: String)
    ensures
        s@ == "https://accounts.spotify.com/authorize?client_id=ee3d1b4f8d80477ea48743a511ef3018&redirect_uri="@
            + origin@
            + "/api/login&response_type=code&scope=playlist-modify-public playlist-modify-private user-read-recently-played playlist-read-private"@,
{
    concat3(
        "https://accounts.spotify.com/authorize?client_id=ee3d1b4f8d80477ea48743a511ef3018&redirect_uri=",
        origin,
        "/api/login&response_type=code&scope=playlist-modify-public playlist-modify-private user-read-recently-played playlist-read-private",
    )
}

/// The Google sign-in page, returning to `origin`.
pub fn google_login_url(origin: &str) -> (s: String)
    ensures
        s@ == "https://accounts.google.com/o/oauth2/v2/auth?client_id=1038220726403-n55jha2cvprd8kdb4akdfvo0uiok4p5u.apps.googleusercontent.com&redirect_uri="@
            + origin@ + "/api/login/google&response_type=code&scope=email"@,
{
    concat3(
        "https://accounts.google.com/o/oauth2/v2/auth?client_id=1038220726403-n55jha2cvprd8kdb4akdfvo0uiok4p5u.apps.googleusercontent.com&redirect_uri=",
        origin,
        "/api/login/google&response_type=code&scope=email",
    )
}

/// The source name and id under which a Spotify link is imported.
pub open spec fn import_source_spec(link: Option<Spotify>, r: Option<(&'static str, String)>) -> bool {
    match link {
        Some(Spotify::Playlist(id)) => r matches Some(x) && x.0@ == "spotify:playlist"@ && x.1@ == id.id@,
        Some(Spotify::Album(id)) => r matches Some(x) && x.0@ == "spotify:album"@ && x.1@ == id.id@,
        Some(Spotify::Track(id)) => r matches Some(x) && x.0@ == "spotify:track"@ && x.1@ == id.id@,
        None => r is None,
    }
}

/// What the Spotify page imports for a link typed into its import box: the
/// source name and id of a playlist, album or track link, or nothing.
pub fn spotify_import_source(input: String) -> (r: Option<(&'static str, String)>)
    ensures
        exists|link: Option<Spotify>| spotify_link_read(input@, link) && import_source_spec(link, r),
{
    let link = crate::sources::parse_spotify_source(input);
    let r = match &link {
        Some(Spotify::Playlist(id)) => Some(("spotify:playlist", id.id.clone())),
        Some(Spotify::Album(id)) => Some(("spotify:album", id.id.clone())),
        Some(Spotify::Track(id)) => Some(("spotify:track", id.id.clone())),
        None => None,
    };
    assert(import_source_spec(link, r));
    r
}

/// What the Spotify page imports for a recently played track: the track's
/// id, when the link is a track link.
pub fn spotify_track_import(input: String) -> (r: Option<(&'static str, String)>)
    ensures
        exists|link: Option<Spotify>|
            spotify_link_read(input@, link) && match link {
                Some(Spotify::Track(id)) => r matches Some(x) && x.0@ == "spotify:track"@ && x.1@ == id.id@,
                _ => r is None,
            },
{
    let link = crate::sources::parse_spotify_source(input);
    match &link {
        Some(Spotify::Track(id)) => Some(("spotify:track", id.id.clone())),
        _ => None,
    }
}

/// The requests, in order, that deleting a list with all its items makes:
/// first its items, by their ids, then the list itself.
pub fn delete_all_urls(list: &List) -> (r: Vec<String>)
    ensures
        r@.len() == 2,
        r@[0]@ == "/api/items?ids="@ + joined(list.items@.map_values(|i: ItemMetadata| i.id@), ","@),
        r@[1]@ == "/api/lists/"@ + list.id@,
{
    let mut ids: Vec<String> = Vec::new();
    let mut k: usize = 0;
    while k < list.items.len()
        invariant
            k <= list.items@.len(),
            ids@.len() == k,
            forall|j: int| 0 <= j < k ==> #[trigger] ids@[j]@ == list.items@[j].id@,
        decreases list.items.len() - k,
    {
        let id = list.items[k].id.clone();
        ids.push(id);
        k = k + 1;
    }
    assert(ids@.map_values(|s: String| s@) =~= list.items@.map_values(|i: ItemMetadata| i.id@));
    let mut r: Vec<String> = Vec::new();
    r.push(delete_items_url(&ids));
    r.push(list_url(list.id.as_str()));
    r
}

} // verus!
