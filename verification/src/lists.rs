//! Lists, their items, their data sources and their owners, and the
//! decisions of the list pages that depend on them.

use vstd::prelude::*;
use crate::sources::{Id, Spotify};
use crate::text::str_eq;

verus! {

/// What the client shows of an item.
#[derive(Clone, Debug, PartialEq, Eq)]
pub struct ItemMetadata {
    pub id: String,
    pub name: String,
    /// The address of the item's player, if it has one.
    pub iframe: Option<String>,
    pub score: i32,
    pub wins: i32,
    pub losses: i32,
}

/// The items of a list as the server lists them; an entry may be missing.
#[derive(Clone, Debug, PartialEq, Eq)]
pub struct Items {
    pub items: Vec<Option<ItemMetadata>>,
}

/// A signed-in user.
#[derive(Clone, Debug, PartialEq, Eq)]
pub struct User {
    pub user_id: String,
    pub spotify_user: Option<String>,
    pub spotify_url: Option<String>,
    pub google_email: Option<String>,
}

/// How a list gets its items.
#[derive(Clone, Debug, PartialEq, Eq)]
pub enum ListMode {
    /// The user's own list, optionally pushed to an external playlist.
    User(Option<Id>),
    /// A list that mirrors an external source and cannot be renamed.
    External,
    /// A view over a query, optionally pushed to an external playlist.
    View(Option<Id>),
}

/// Where the items of a list come from.
#[derive(Clone, Debug, PartialEq, Eq)]
pub enum SourceType {
    /// Custom items, as JSON text.
    Custom(String),
    Spotify(Spotify),
    Setlist(Id),
    /// The items of another list, by its id.
    ListItems(String),
}

/// A data source of a list.
#[derive(Clone, Debug, PartialEq, Eq)]
pub struct Source {
    pub source_type: SourceType,
    pub name: String,
}

/// A list.
#[derive(Clone, Debug, PartialEq, Eq)]
pub struct List {
    pub id: String,
    pub user_id: String,
    pub mode: ListMode,
    pub name: String,
    pub sources: Vec<Source>,
    pub iframe: Option<String>,
    pub items: Vec<ItemMetadata>,
    pub favorite: bool,
    pub public: bool,
    pub query: String,
}

fn copy_string(s: &String) -> (r: String)
    ensures
        r == *s,
{
    s.clone()
}

fn copy_opt_string(s: &Option<String>) -> (r: Option<String>)
    ensures
        r == *s,
{
    match s {
        Some(x) => Some(x.clone()),
        None => None,
    }
}

impl ItemMetadata {
    /// An identical copy of the item.
    pub fn duplicate(&self) -> (r: ItemMetadata)
        ensures
            r == *self,
    {
        ItemMetadata {
            id: copy_string(&self.id),
            name: copy_string(&self.name),
            iframe: copy_opt_string(&self.iframe),
            score: self.score,
            wins: self.wins,
            losses: self.losses,
        }
    }
}

/// An identical copy of a list entry.
pub fn duplicate_entry(e: &Option<ItemMetadata>) -> (r: Option<ItemMetadata>)
    ensures
        r == *e,
{
    match e {
        Some(m) => Some(m.duplicate()),
        None => None,
    }
}

/// The list belongs to the signed-in user, or, with nobody signed in, it is the demo list.
pub open spec fn spec_user_list(list_user_id: Seq<char>, user: Option<Seq<char>>) -> bool {
    match user {
        Some(u) => list_user_id == u,
        None => list_user_id == "demo"@,
    }
}

/// Whether the list is the signed-in user's own, or the demo list when nobody is signed in.
pub fn user_list(list: &List, user: &Option<User>) -> (r: bool)
    ensures
        r == spec_user_list(list.user_id@, match user { Some(u) => Some(u.user_id@), None => None }),
{
    match user {
        Some(u) => str_eq(list.user_id.as_str(), u.user_id.as_str()),
        None => str_eq(list.user_id.as_str(), "demo"),
    }
}

/// The edit controls of the item page are off unless someone is signed in
/// and the list is theirs.
pub fn edits_disabled(list: &List, user: &Option<User>) -> (r: bool)
    ensures
        r == (user is None || !spec_user_list(list.user_id@, match user { Some(u) => Some(u.user_id@), None => None })),
{
    match user {
        None => true,
        Some(_) => !user_list(list, user),
    }
}

/// The Spotify account that the user settings page links to, as its address
/// and its user name, when both are known.
pub fn spotify_account(user: &User) -> (r: Option<(String, String)>)
    ensures
        match r {
            Some(a) => user.spotify_url == Some(a.0) && user.spotify_user == Some(a.1),
            None => user.spotify_url is None || user.spotify_user is None,
        },
{
    match (&user.spotify_url, &user.spotify_user) {
        (Some(url), Some(name)) => Some((copy_string(url), copy_string(name))),
        _ => None,
    }
}

} // verus!
