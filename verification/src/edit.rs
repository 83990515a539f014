//! The settings page of a list: reading the data sources typed into the form,
//! and taking the form into the list.

use vstd::prelude::*;
use crate::lists::{List, ListMode, Source, SourceType};
use crate::sources::{
    Id, Spotify, album_prefix, parse_setlist_source, parse_spotify_source, pattern_at,
    playlist_prefix, prefix_group, prefix_match, setlist_group, setlist_match, spotify_link_read,
    track_prefix,
};
use crate::text::str_eq;

verus! {

/// Whether `text` is a JSON document: `serde_json::from_str` reads it into a
/// `serde_json::Value` without error.
pub uninterp spec fn spec_is_json(text: Seq<char>) -> bool;

/// Checks JSON text by parsing it with `serde_json::from_str` into a
/// `serde_json::Value`. The claim is that the answer depends on the text alone;
/// which texts are JSON is left to the crate and not stated.
#[verifier::external_body]
fn is_json(text: &str) -> (r: bool)
    ensures
        r == spec_is_json(text@),
{
    serde_json::from_str::<serde_json::Value>(text).is_ok()
}

/// What a data source row of the form gives: `kind` is the chosen source
/// kind, `value` the text typed for it, and `json_ok` whether that text is
/// JSON. `None` means the row is not a valid source.
pub open spec fn source_read(kind: Seq<char>, value: Seq<char>, json_ok: bool, r: Option<Source>) -> bool {
    if kind == "Spotify"@ {
        match r {
            Some(s) => s.name@ == Seq::<char>::empty() && match s.source_type {
                SourceType::Spotify(sp) => spotify_link_read(value, Some(sp)),
                _ => false,
            },
            None => spotify_link_read(value, None),
        }
    } else if kind == "Custom"@ {
        match r {
            Some(s) => json_ok && s.name@ == Seq::<char>::empty() && match s.source_type {
                SourceType::Custom(t) => t@ == value,
                _ => false,
            },
            None => !json_ok,
        }
    } else if kind == "Setlist"@ {
        match r {
            Some(s) => s.name@ == Seq::<char>::empty() && match s.source_type {
                SourceType::Setlist(id) => id.raw_id@ == value && setlist_group(value, Some(id.id@)),
                _ => false,
            },
            None => setlist_group(value, None),
        }
    } else if kind == "List Items"@ {
        match r {
            Some(s) => s.name@ == Seq::<char>::empty() && match s.source_type {
                SourceType::ListItems(t) => t@ == value,
                _ => false,
            },
            None => false,
        }
    } else {
        r is None
    }
}

proof fn lemma_source_read_exclusive(kind: Seq<char>, value: Seq<char>, json_ok: bool, s: Source)
    requires
        source_read(kind, value, json_ok, Some(s)),
    ensures
        !source_read(kind, value, json_ok, None),
{
    if kind == "Spotify"@ {
        match s.source_type {
            SourceType::Spotify(sp) => {
                match sp {
                    Spotify::Playlist(id) => {
                        let (p, e) = choose|p: int, e: int| #[trigger] prefix_match(value, playlist_prefix(), p, e) && id.id@ == value.subrange(p + playlist_prefix().len(), e) && forall|p2: int| p2 < p ==> !#[trigger] pattern_at(value, p2, playlist_prefix());
                        assert(pattern_at(value, p, playlist_prefix()));
                    },
                    Spotify::Album(id) => {
                        let (p, e) = choose|p: int, e: int| #[trigger] prefix_match(value, album_prefix(), p, e) && id.id@ == value.subrange(p + album_prefix().len(), e) && forall|p2: int| p2 < p ==> !#[trigger] pattern_at(value, p2, album_prefix());
                        assert(pattern_at(value, p, album_prefix()));
                    },
                    Spotify::Track(id) => {
                        let (p, e) = choose|p: int, e: int| #[trigger] prefix_match(value, track_prefix(), p, e) && id.id@ == value.subrange(p + track_prefix().len(), e) && forall|p2: int| p2 < p ==> !#[trigger] pattern_at(value, p2, track_prefix());
                        assert(pattern_at(value, p, track_prefix()));
                    },
                }
            },
            _ => {},
        }
    } else if kind == "Setlist"@ {
        match s.source_type {
            SourceType::Setlist(id) => {
                let (p, k, j) = choose|p: int, k: int, j: int| #[trigger] setlist_match(value, p, k, j) && id.id@ == value.subrange(k + 1, j) && forall|p2: int, k2: int, j2: int| #[trigger] setlist_match(value, p2, k2, j2) ==> p < p2 || (p == p2 && (k2 < k || (k2 == k && j2 <= j)));
                assert(setlist_match(value, p, k, j));
            },
            _ => {},
        }
    }
}

/// Reads one data source row of the form, given whether its text is JSON.
pub fn read_source(kind: &str, value: String, json_ok: bool) -> (r: Option<Source>)
    ensures
        source_read(kind@, value@, json_ok, r),
{
    if str_eq(kind, "Spotify") {
        match parse_spotify_source(value) {
            Some(sp) => Some(Source { source_type: SourceType::Spotify(sp), name: String::new() }),
            None => None,
        }
    } else if str_eq(kind, "Custom") {
        if json_ok {
            Some(Source { source_type: SourceType::Custom(value), name: String::new() })
        } else {
            None
        }
    } else if str_eq(kind, "Setlist") {
        match parse_setlist_source(value) {
            Some(id) => Some(Source { source_type: SourceType::Setlist(id), name: String::new() }),
            None => None,
        }
    } else if str_eq(kind, "List Items") {
        Some(Source { source_type: SourceType::ListItems(value), name: String::new() })
    } else {
        None
    }
}

/// Reads the data source rows of the form, in order; `None` as soon as a row
/// is not a valid source.
pub fn build_sources(rows: &Vec<(String, String)>) -> (r: Option<Vec<Source>>)
    ensures
        match r {
            Some(v) => v@.len() == rows@.len() && forall|i: int|
                0 <= i < rows@.len() ==> source_read(
                    rows@[i].0@,
                    rows@[i].1@,
                    spec_is_json(rows@[i].1@),
                    Some(#[trigger] v@[i]),
                ),
            None => exists|i: int|
                0 <= i < rows@.len() && source_read(
                    #[trigger] rows@[i].0@,
                    rows@[i].1@,
                    spec_is_json(rows@[i].1@),
                    None,
                ),
        },
{
    let mut v: Vec<Source> = Vec::new();
    let mut i: usize = 0;
    while i < rows.len()
        invariant
            i <= rows.len(),
            v@.len() == i,
            forall|k: int|
                0 <= k < i ==> source_read(
                    rows@[k].0@,
                    rows@[k].1@,
                    spec_is_json(rows@[k].1@),
                    Some(#[trigger] v@[k]),
                ),
        decreases rows.len() - i,
    {
        let kind = rows[i].0.as_str();
        let value = rows[i].1.clone();
        let json_ok = is_json(value.as_str());
        match read_source(kind, value, json_ok) {
            Some(s) => v.push(s),
            None => {
                assert(source_read(rows@[i as int].0@, rows@[i as int].1@, spec_is_json(rows@[i as int].1@), None));
                return None;
            },
        }
        i = i + 1;
    }
    Some(v)
}

/// What the settings form holds.
#[derive(Clone, Debug, PartialEq, Eq)]
pub struct SettingsForm {
    pub name: String,
    pub external_id: String,
    pub query: String,
    pub favorite: bool,
    pub public: bool,
    /// The data source rows: the chosen kind and the text typed for it.
    pub sources: Vec<(String, String)>,
}

/// The external id of a list after a save with `input` in its box: cleared by
/// an empty box, replaced by a Spotify playlist link, else kept.
pub open spec fn external_id_after(before: Option<Id>, input: Seq<char>, after: Option<Id>) -> bool {
    if input.len() == 0 {
        after is None
    } else if prefix_group(input, playlist_prefix(), None) {
        after == before
    } else {
        match after {
            Some(id) => id.raw_id@ == input && prefix_group(input, playlist_prefix(), Some(id.id@)),
            None => false,
        }
    }
}

/// The mode of a list after a save with `input` in its external id box.
pub open spec fn mode_after(before: ListMode, input: Seq<char>, after: ListMode) -> bool {
    match before {
        ListMode::User(e) => after matches ListMode::User(a) && external_id_after(e, input, a),
        ListMode::View(e) => after matches ListMode::View(a) && external_id_after(e, input, a),
        ListMode::External => after == ListMode::External,
    }
}

fn copy_id(id: &Id) -> (r: Id)
    ensures
        r == *id,
{
    Id { id: id.id.clone(), raw_id: id.raw_id.clone() }
}

fn copy_external(e: &Option<Id>) -> (r: Option<Id>)
    ensures
        r == *e,
{
    match e {
        Some(id) => Some(copy_id(id)),
        None => None,
    }
}

fn external_after(before: &Option<Id>, input: &String) -> (after: Option<Id>)
    ensures
        external_id_after(*before, input@, after),
{
    if input.as_str().unicode_len() == 0 {
        None
    } else {
        match parse_spotify_source(input.clone()) {
            Some(Spotify::Playlist(id)) => Some(id),
            _ => copy_external(before),
        }
    }
}

/// Takes the settings form into the list, unless a data source row is not
/// valid, in which case the list stays as it was and `false` is returned.
/// The name is kept for a list that mirrors an external source.
pub fn apply_settings(list: &mut List, form: &SettingsForm) -> (saved: bool)
    ensures
        !saved ==> *final(list) == *old(list),
        saved == build_sources_spec(form.sources@),
        saved ==> {
            &&& final(list).id == old(list).id
            &&& final(list).user_id == old(list).user_id
            &&& final(list).iframe == old(list).iframe
            &&& final(list).items == old(list).items
            &&& final(list).name@ == if old(list).mode is External { old(list).name@ } else { form.name@ }
            &&& mode_after(old(list).mode, form.external_id@, final(list).mode)
            &&& final(list).query@ == form.query@
            &&& final(list).favorite == form.favorite
            &&& final(list).public == form.public
            &&& final(list).sources@.len() == form.sources@.len()
            &&& forall|i: int|
                0 <= i < form.sources@.len() ==> source_read(
                    form.sources@[i].0@,
                    form.sources@[i].1@,
                    spec_is_json(form.sources@[i].1@),
                    Some(#[trigger] final(list).sources@[i]),
                )
        },
{
    let sources = match build_sources(&form.sources) {
        Some(v) => v,
        None => {
            return false;
        },
    };
    assert forall|i: int| 0 <= i < form.sources@.len() implies !source_read(
        #[trigger] form.sources@[i].0@,
        form.sources@[i].1@,
        spec_is_json(form.sources@[i].1@),
        None,
    ) by {
        lemma_source_read_exclusive(form.sources@[i].0@, form.sources@[i].1@, spec_is_json(form.sources@[i].1@), sources@[i]);
    }
    let is_external = match &list.mode {
        ListMode::External => true,
        _ => false,
    };
    if !is_external {
        list.name = form.name.clone();
    }
    let mode = match &list.mode {
        ListMode::User(e) => ListMode::User(external_after(e, &form.external_id)),
        ListMode::View(e) => ListMode::View(external_after(e, &form.external_id)),
        ListMode::External => ListMode::External,
    };
    list.mode = mode;
    list.query = form.query.clone();
    list.favorite = form.favorite;
    list.public = form.public;
    list.sources = sources;
    true
}

/// All data source rows are valid.
pub open spec fn build_sources_spec(rows: Seq<(String, String)>) -> bool {
    forall|i: int| 0 <= i < rows.len() ==> !source_read(#[trigger] rows[i].0@, rows[i].1@, spec_is_json(rows[i].1@), None)
}

/// The source kind selected in a form row (Custom, Spotify, Setlist, List
/// Items) and the text shown for it; a new row shows Spotify and no text.
pub open spec fn source_form_spec(source: Option<SourceType>, selected: usize, value: Seq<char>) -> bool {
    match source {
        None => selected == 1 && value == Seq::<char>::empty(),
        Some(SourceType::Custom(t)) => selected == 0 && value == t@,
        Some(SourceType::Spotify(Spotify::Playlist(id))) => selected == 1 && value == id.raw_id@,
        Some(SourceType::Spotify(Spotify::Album(id))) => selected == 1 && value == id.raw_id@,
        Some(SourceType::Spotify(Spotify::Track(id))) => selected == 1 && value == id.raw_id@,
        Some(SourceType::Setlist(id)) => selected == 2 && value == id.raw_id@,
        Some(SourceType::ListItems(t)) => selected == 3 && value == t@,
    }
}

/// What a data source row of the form shows for a source.
pub fn source_form(source: &Option<SourceType>) -> (r: (usize, String))
    ensures
        source_form_spec(*source, r.0, r.1@),
{
    match source {
        None => (1, String::new()),
        Some(SourceType::Custom(t)) => (0, t.clone()),
        Some(SourceType::Spotify(Spotify::Playlist(id))) => (1, id.raw_id.clone()),
        Some(SourceType::Spotify(Spotify::Album(id))) => (1, id.raw_id.clone()),
        Some(SourceType::Spotify(Spotify::Track(id))) => (1, id.raw_id.clone()),
        Some(SourceType::Setlist(id)) => (2, id.raw_id.clone()),
        Some(SourceType::ListItems(t)) => (3, t.clone()),
    }
}

/// The question asked before a list is deleted.
pub fn delete_list_prompt(id: &str) -> (s: String)
    ensures
        s@ == "Delete "@ + id@ + "?"@,
{
    let mut s = String::from_str("Delete ");
    s.append(id);
    s.append("?");
    s
}

/// The question asked before a list and all its items are deleted.
pub fn delete_all_prompt(id: &str) -> (s: String)
    ensures
        s@ == "Delete all items in "@ + id@ + " and list?"@,
{
    let mut s = String::from_str("Delete all items in ");
    s.append(id);
    s.append(" and list?");
    s
}

/// The name of a list mode as the settings page shows it.
pub fn mode_label(mode: &ListMode) -> (s: &'static str)
    ensures
        s@ == match mode {
            ListMode::User(_) => "User"@,
            ListMode::External => "External"@,
            ListMode::View(_) => "View"@,
        },
{
    match mode {
        ListMode::User(_) => "User",
        ListMode::External => "External",
        ListMode::View(_) => "View",
    }
}

/// The source kinds of a settings form row, in the order of its menu.
pub open spec fn source_kind_label(i: usize) -> Seq<char> {
    if i == 0 {
        "Custom"@
    } else if i == 1 {
        "Spotify"@
    } else if i == 2 {
        "Setlist"@
    } else {
        "List Items"@
    }
}

/// The link a Spotify source was read from.
pub open spec fn spotify_link_of(sp: Spotify) -> Seq<char> {
    match sp {
        Spotify::Playlist(id) => id.raw_id@,
        Spotify::Album(id) => id.raw_id@,
        Spotify::Track(id) => id.raw_id@,
    }
}

/// A source as reading a form row makes it: a Spotify or setlist source with
/// the link it was read from, custom items whose text is JSON, or another
/// list's items.
pub open spec fn source_as_read(s: SourceType) -> bool {
    match s {
        SourceType::Custom(t) => spec_is_json(t@),
        SourceType::Spotify(sp) => spotify_link_read(spotify_link_of(sp), Some(sp)),
        SourceType::Setlist(id) => setlist_group(id.raw_id@, Some(id.id@)),
        SourceType::ListItems(_) => true,
    }
}

/// A settings form saved without changes keeps its sources: the kind and the
/// text that a row shows for a source read back, with `read_source`, as that
/// same source.
pub proof fn law_source_form_reads_back(src: Source, selected: usize, value: Seq<char>)
    requires
        source_as_read(src.source_type),
        src.name@ == Seq::<char>::empty(),
        source_form_spec(Some(src.source_type), selected, value),
    ensures
        source_read(source_kind_label(selected), value, spec_is_json(value), Some(src)),
{
    reveal_strlit("Custom");
    reveal_strlit("Spotify");
    reveal_strlit("Setlist");
    reveal_strlit("List Items");
    let kind = source_kind_label(selected);
    match src.source_type {
        SourceType::Custom(t) => {
            assert(kind == "Custom"@);
            assert(kind != "Spotify"@);
        },
        SourceType::Spotify(sp) => {
            assert(kind == "Spotify"@);
            match sp {
                Spotify::Playlist(id) => assert(value == id.raw_id@),
                Spotify::Album(id) => assert(value == id.raw_id@),
                Spotify::Track(id) => assert(value == id.raw_id@),
            }
        },
        SourceType::Setlist(id) => {
            assert(kind == "Setlist"@);
            assert(("Setlist"@)[1] != ("Spotify"@)[1]);
            assert(kind != "Spotify"@ && kind != "Custom"@);
        },
        SourceType::ListItems(t) => {
            assert(kind == "List Items"@);
            assert(kind != "Spotify"@ && kind != "Custom"@ && kind != "Setlist"@);
        },
    }
}

} // verus!
