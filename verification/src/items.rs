//! The item page of a list: each item's rating, hidden mark and note, what a
//! save sends, the browsing of items one at a time, the deletion of an item,
//! and the links to the list's data sources.

use vstd::prelude::*;
use crate::lists::{ItemMetadata, List, ListMode, Source, SourceType, User};
use crate::sources::{Id, Spotify};
use crate::text::str_eq;

verus! {

/// The editable state of one item.
#[derive(Clone, Debug, PartialEq, Eq)]
pub struct ItemState {
    /// A rating from 1 to 10, or none.
    pub rating: Option<u64>,
    pub hidden: bool,
    pub note: String,
}

impl ItemState {
    /// A copy of the state that shares nothing with it: the same rating,
    /// hidden mark and note, so that changing one leaves the other as it was.
    pub fn duplicate(&self) -> (r: ItemState)
        ensures
            r == *self,
    {
        ItemState { rating: self.rating, hidden: self.hidden, note: self.note.clone() }
    }
}

/// One row of the list's query over its items: id, rating, hidden mark and note.
#[derive(Clone, Debug, PartialEq, Eq)]
pub struct ItemRow {
    pub id: String,
    pub rating: Option<u64>,
    pub hidden: bool,
    pub note: String,
}

/// The state of an item before anything is known of it.
pub open spec fn default_state(s: ItemState) -> bool {
    s.rating is None && !s.hidden && s.note@ == Seq::<char>::empty()
}

/// The state that a query row gives.
pub open spec fn state_of_row(s: ItemState, r: ItemRow) -> bool {
    s.rating == r.rating && s.hidden == r.hidden && s.note@ == r.note@
}

/// The last position, below `n`, of an item whose id is `id`.
pub open spec fn last_position(ids: Seq<Seq<char>>, id: Seq<char>, n: int) -> int
    decreases n,
{
    if n <= 0 {
        -1
    } else if ids[n - 1] == id {
        n - 1
    } else {
        last_position(ids, id, n - 1)
    }
}

/// The last of the first `n` rows that addresses position `i`: a row addresses
/// the last item that carries its id.
pub open spec fn row_for(ids: Seq<Seq<char>>, rows: Seq<ItemRow>, i: int, n: int) -> Option<int>
    decreases n,
{
    if n <= 0 {
        None
    } else if last_position(ids, rows[n - 1].id@, ids.len() as int) == i {
        Some(n - 1)
    } else {
        row_for(ids, rows, i, n - 1)
    }
}

proof fn lemma_last_position(ids: Seq<Seq<char>>, id: Seq<char>, n: int)
    requires
        0 <= n <= ids.len(),
    ensures
        -1 <= last_position(ids, id, n) < n,
        last_position(ids, id, n) >= 0 ==> ids[last_position(ids, id, n)] == id,
        last_position(ids, id, n) == -1 ==> forall|k: int| 0 <= k < n ==> ids[k] != id,
        forall|k: int| last_position(ids, id, n) < k < n ==> ids[k] != id,
    decreases n,
{
    if n > 0 {
        lemma_last_position(ids, id, n - 1);
    }
}

/// Every row carries the id of some item.
pub open spec fn rows_known(ids: Seq<String>, rows: Seq<ItemRow>) -> bool {
    forall|r: int| 0 <= r < rows.len() ==> exists|k: int| 0 <= k < ids.len() && #[trigger] ids[k]@ == #[trigger] rows[r].id@
}

fn copy_text(s: &String) -> (r: String)
    ensures
        r@ == s@,
{
    s.clone()
}

/// The position of the last item whose id is `id`.
fn find_last(ids: &Vec<String>, id: &String) -> (p: Option<usize>)
    ensures
        match p {
            Some(i) => last_position(ids@.map_values(|s: String| s@), id@, ids@.len() as int) == i,
            None => last_position(ids@.map_values(|s: String| s@), id@, ids@.len() as int) == -1,
        },
{
    let ghost views = ids@.map_values(|s: String| s@);
    let mut k = ids.len();
    while k > 0
        invariant
            k <= ids@.len(),
            views == ids@.map_values(|s: String| s@),
            last_position(views, id@, ids@.len() as int) == last_position(views, id@, k as int),
        decreases k,
    {
        if str_eq(ids[k - 1].as_str(), id.as_str()) {
            return Some(k - 1);
        }
        k = k - 1;
    }
    None
}

/// The state of every item from the rows of the list's query: an item takes
/// the state of the last row with its id, where a row goes to the last item
/// with the row's id; an item that no row reaches keeps the default state.
pub fn build_item_states(ids: &Vec<String>, rows: &Vec<ItemRow>) -> (states: Vec<ItemState>)
    requires
        rows_known(ids@, rows@),
    ensures
        states@.len() == ids@.len(),
        forall|i: int|
            0 <= i < ids@.len() ==> match row_for(ids@.map_values(|s: String| s@), rows@, i, rows@.len() as int) {
                Some(r) => state_of_row(#[trigger] states@[i], rows@[r]),
                None => default_state(states@[i]),
            },
{
    let ghost views = ids@.map_values(|s: String| s@);
    let mut states: Vec<ItemState> = Vec::new();
    let mut i: usize = 0;
    while i < ids.len()
        invariant
            i <= ids.len(),
            states@.len() == i,
            forall|k: int| 0 <= k < i ==> default_state(#[trigger] states@[k]),
        decreases ids.len() - i,
    {
        states.push(ItemState { rating: None, hidden: false, note: String::new() });
        i = i + 1;
    }
    let mut n: usize = 0;
    while n < rows.len()
        invariant
            views == ids@.map_values(|s: String| s@),
            rows_known(ids@, rows@),
            n <= rows.len(),
            states@.len() == ids@.len(),
            forall|i: int|
                0 <= i < ids@.len() ==> match row_for(views, rows@, i, n as int) {
                    Some(r) => state_of_row(#[trigger] states@[i], rows@[r]),
                    None => default_state(states@[i]),
                },
        decreases rows.len() - n,
    {
        let row = &rows[n];
        let p = find_last(ids, &row.id);
        proof {
            lemma_last_position(views, row.id@, ids@.len() as int);
            assert(rows@[n as int].id@ == row.id@);
            let k = choose|k: int| 0 <= k < ids@.len() && #[trigger] ids@[k]@ == rows@[n as int].id@;
            assert(views[k] == row.id@);
        }
        match p {
            Some(pos) => {
                let s = ItemState { rating: row.rating, hidden: row.hidden, note: copy_text(&row.note) };
                states.set(pos, s);
            },
            None => {},
        }
        n = n + 1;
    }
    states
}

/// What a save sends for one item.
#[derive(Clone, Debug, PartialEq, Eq)]
pub struct ItemUpdate {
    /// The item's position in the list.
    pub index: usize,
    /// The item's id.
    pub id: String,
    /// The rating, which a save always sends.
    pub rating: Option<u64>,
    /// The hidden mark, sent when the check box differs from the item's state.
    pub hidden: Option<bool>,
    /// The note, sent when the text box differs from the note last saved.
    pub note: Option<String>,
}

/// The update a save sends for item `i`.
pub open spec fn update_for(
    u: ItemUpdate,
    i: int,
    id: Seq<char>,
    saved: ItemState,
    current: ItemState,
    hidden_box: bool,
    note_box: Seq<char>,
) -> bool {
    &&& u.index == i
    &&& u.id@ == id
    &&& u.rating == current.rating
    &&& u.hidden == if hidden_box != current.hidden { Some(hidden_box) } else { None }
    &&& match u.note {
        Some(n) => note_box != saved.note@ && n@ == note_box,
        None => note_box == saved.note@,
    }
}

/// What a save of the item page sends: one update per item, in item order.
/// Every item is sent, since every update carries the rating.
pub fn item_updates(
    ids: &Vec<String>,
    saved: &Vec<ItemState>,
    current: &Vec<ItemState>,
    hidden_boxes: &Vec<bool>,
    note_boxes: &Vec<String>,
) -> (updates: Vec<ItemUpdate>)
    requires
        saved@.len() == ids@.len(),
        current@.len() == ids@.len(),
        hidden_boxes@.len() == ids@.len(),
        note_boxes@.len() == ids@.len(),
    ensures
        updates@.len() == ids@.len(),
        forall|i: int|
            0 <= i < ids@.len() ==> update_for(
                #[trigger] updates@[i],
                i,
                ids@[i]@,
                saved@[i],
                current@[i],
                hidden_boxes@[i],
                note_boxes@[i]@,
            ),
{
    let mut updates: Vec<ItemUpdate> = Vec::new();
    let mut i: usize = 0;
    while i < ids.len()
        invariant
            saved@.len() == ids@.len(),
            current@.len() == ids@.len(),
            hidden_boxes@.len() == ids@.len(),
            note_boxes@.len() == ids@.len(),
            i <= ids.len(),
            updates@.len() == i,
            forall|k: int|
                0 <= k < i ==> update_for(
                    #[trigger] updates@[k],
                    k,
                    ids@[k]@,
                    saved@[k],
                    current@[k],
                    hidden_boxes@[k],
                    note_boxes@[k]@,
                ),
        decreases ids.len() - i,
    {
        let hidden = if hidden_boxes[i] != current[i].hidden {
            Some(hidden_boxes[i])
        } else {
            None
        };
        let note = if str_eq(note_boxes[i].as_str(), saved[i].note.as_str()) {
            None
        } else {
            Some(copy_text(&note_boxes[i]))
        };
        updates.push(ItemUpdate { index: i, id: copy_text(&ids[i]), rating: current[i].rating, hidden, note });
        i = i + 1;
    }
    updates
}

/// The state of an item after a successful save of `u`.
pub open spec fn state_after_update(before: ItemState, after: ItemState, u: ItemUpdate) -> bool {
    &&& after.rating == u.rating
    &&& after.hidden == match u.hidden {
        Some(h) => h,
        None => before.hidden,
    }
    &&& after.note@ == match u.note {
        Some(n) => n@,
        None => before.note@,
    }
}

/// Takes the sent values into the items' state after a successful save.
pub fn apply_item_updates(states: &mut Vec<ItemState>, updates: &Vec<ItemUpdate>)
    requires
        forall|k: int| 0 <= k < updates@.len() ==> #[trigger] updates@[k].index < old(states)@.len(),
        forall|k: int, l: int| 0 <= k < l < updates@.len() ==> #[trigger] updates@[k].index != #[trigger] updates@[l].index,
    ensures
        final(states)@.len() == old(states)@.len(),
        forall|k: int| 0 <= k < updates@.len() ==> state_after_update(
            old(states)@[updates@[k].index as int],
            final(states)@[#[trigger] updates@[k].index as int],
            updates@[k],
        ),
        forall|i: int| 0 <= i < old(states)@.len() && (forall|k: int| 0 <= k < updates@.len() ==> #[trigger] updates@[k].index != i)
            ==> final(states)@[i] == old(states)@[i],
{
    let ghost before = states@;
    let mut k: usize = 0;
    while k < updates.len()
        invariant
            forall|k: int| 0 <= k < updates@.len() ==> #[trigger] updates@[k].index < before.len(),
            forall|k: int, l: int| 0 <= k < l < updates@.len() ==> #[trigger] updates@[k].index != #[trigger] updates@[l].index,
            k <= updates.len(),
            states@.len() == before.len(),
            forall|m: int| 0 <= m < k ==> state_after_update(
                before[updates@[m].index as int],
                states@[#[trigger] updates@[m].index as int],
                updates@[m],
            ),
            forall|i: int| 0 <= i < before.len() && (forall|m: int| 0 <= m < k ==> #[trigger] updates@[m].index != i)
                ==> states@[i] == before[i],
        decreases updates.len() - k,
    {
        let u = &updates[k];
        let i = u.index;
        assert(forall|m: int| 0 <= m < k ==> #[trigger] updates@[m].index != i);
        let hidden = match u.hidden {
            Some(h) => h,
            None => states[i].hidden,
        };
        let note = match &u.note {
            Some(n) => copy_text(n),
            None => copy_text(&states[i].note),
        };
        states.set(i, ItemState { rating: u.rating, hidden, note });
        k = k + 1;
    }
}

/// After a successful save, the item's state holds the check box and the
/// text box, so a second save without edits sends no hidden mark and no note.
pub proof fn law_save_settles(
    u: ItemUpdate,
    i: int,
    id: Seq<char>,
    saved: ItemState,
    current: ItemState,
    hidden_box: bool,
    note_box: Seq<char>,
    after: ItemState,
    u2: ItemUpdate,
)
    requires
        current.note@ == saved.note@,
        update_for(u, i, id, saved, current, hidden_box, note_box),
        state_after_update(current, after, u),
        update_for(u2, i, id, after, after, hidden_box, note_box),
    ensures
        after.hidden == hidden_box,
        after.note@ == note_box,
        after.rating == current.rating,
        u2.hidden is None,
        u2.note is None,
{
}

/// The item shown before item `i` when browsing items one at a time: the
/// previous one, or the last after the first.
pub fn modal_back(i: usize, len: usize) -> (r: usize)
    requires
        len > 0,
    ensures
        r == if i == 0 { len - 1 } else { i - 1 },
{
    if i == 0 {
        len - 1
    } else {
        i - 1
    }
}

/// The item shown after item `i` when browsing items one at a time: the
/// next one, or the first after the last.
pub fn modal_forward(i: usize, len: usize) -> (r: usize)
    requires
        len > 0,
        i < usize::MAX,
    ensures
        r == if i == len - 1 { 0 } else { i + 1 },
{
    if i == len - 1 {
        0
    } else {
        i + 1
    }
}

/// Browsing forward then back, or back then forward, returns to the item one started from.
pub proof fn law_modal_round_trip(i: usize, len: usize)
    requires
        len > 0,
        i < len,
    ensures
        ({
            let f = if i == len - 1 { 0 } else { i + 1 };
            (if f == 0 { len - 1 } else { f - 1 }) == i
        }),
        ({
            let b = if i == 0 { len - 1 } else { i - 1 };
            (if b == len - 1 { 0 } else { b + 1 }) == i
        }),
{
}

/// How the item page is laid out in each mode.
#[derive(Clone, Debug, PartialEq, Eq)]
pub enum ItemMode {
    View,
    Update,
    Delete,
}

/// The grid style and the item column style of the item page in a mode.
pub fn item_mode_layout(mode: &ItemMode) -> (r: (&'static str, &'static str))
    ensures
        match mode {
            ItemMode::View => r.0@ == ""@ && r.1@ == "max-height: 800px"@,
            ItemMode::Update => r.0@ == "grid-template-columns: auto max-content max-content max-content"@
                && r.1@ == "max-height: 800px; grid-template-columns: subgrid; grid-column: span 4"@,
            ItemMode::Delete => r.0@ == "grid-template-columns: auto max-content"@
                && r.1@ == "max-height: 800px; grid-template-columns: subgrid; grid-column: span 2"@,
        },
{
    match mode {
        ItemMode::View => ("", "max-height: 800px"),
        ItemMode::Update => (
            "grid-template-columns: auto max-content max-content max-content",
            "max-height: 800px; grid-template-columns: subgrid; grid-column: span 4",
        ),
        ItemMode::Delete => (
            "grid-template-columns: auto max-content",
            "max-height: 800px; grid-template-columns: subgrid; grid-column: span 2",
        ),
    }
}

/// Takes item `i` out of the item page after it was deleted: out of the items
/// and, once they are loaded, out of their states.
pub fn remove_item(items: &mut Vec<ItemMetadata>, states: &mut Option<Vec<ItemState>>, i: usize)
    requires
        i < old(items)@.len(),
        *old(states) matches Some(s) ==> i < s@.len(),
    ensures
        final(items)@ == old(items)@.remove(i as int),
        match *old(states) {
            Some(s) => *final(states) matches Some(f) && f@ == s@.remove(i as int),
            None => *final(states) is None,
        },
{
    items.remove(i);
    match states.take() {
        Some(mut s) => {
            s.remove(i);
            *states = Some(s);
        },
        None => {},
    }
}

/// Checks a link with the browser's `URL` constructor (`web_sys::Url::new`).
/// Nothing is stated of the answer: it is the browser's, which may differ
/// from one browser to another. The constructor exists only in the browser.
#[verifier::external_body]
fn url_parses(text: &str) -> (r: bool)
{
    web_sys::Url::new(text).is_ok()
}

/// How the item page shows one data source of the list.
#[derive(Clone, Debug, PartialEq, Eq)]
pub enum SourceLink {
    /// A link to the page of the list whose items are taken.
    List { href: String, name: String },
    /// A link to the source's own page.
    External { href: String, name: String },
    /// The source's name alone.
    Text { name: String },
}

/// The link of a source that points outside: that of a Spotify playlist or
/// album, or of a setlist.
pub open spec fn outside_link(st: SourceType) -> Option<Id> {
    match st {
        SourceType::Spotify(Spotify::Playlist(id)) => Some(id),
        SourceType::Spotify(Spotify::Album(id)) => Some(id),
        SourceType::Setlist(id) => Some(id),
        _ => None,
    }
}

/// How a source is shown, given whether its outside link is a valid URL.
pub open spec fn shows_source(source: Source, url_ok: bool, r: SourceLink) -> bool {
    match source.source_type {
        SourceType::ListItems(id) => r matches SourceLink::List { href, name } && href@ == "/lists/"@ + id@
            && name@ == source.name@,
        _ => match outside_link(source.source_type) {
            Some(id) => if url_ok {
                r matches SourceLink::External { href, name } && href@ == id.raw_id@ && name@ == source.name@
            } else {
                r matches SourceLink::Text { name } && name@ == source.name@
            },
            None => r matches SourceLink::Text { name } && name@ == source.name@,
        },
    }
}

/// Chooses how a source is shown, given whether its outside link, if it has
/// one, is a valid URL.
pub fn source_link_with(source: &Source, url_ok: bool) -> (r: SourceLink)
    ensures
        shows_source(*source, url_ok, r),
{
    let name = source.name.clone();
    match &source.source_type {
        SourceType::ListItems(id) => {
            let mut href = String::from_str("/lists/");
            href.append(id.as_str());
            SourceLink::List { href, name }
        },
        SourceType::Spotify(Spotify::Playlist(id)) | SourceType::Spotify(Spotify::Album(id))
        | SourceType::Setlist(id) => {
            if url_ok {
                SourceLink::External { href: id.raw_id.clone(), name }
            } else {
                SourceLink::Text { name }
            }
        },
        _ => SourceLink::Text { name },
    }
}

/// Shows a data source of the list: another list's items link to that list,
/// a Spotify playlist or album or a setlist links to its page when the
/// browser accepts its link (the text that `link_to_check` gives is what is
/// checked), and any other source shows its name.
pub fn source_link(source: &Source) -> (r: SourceLink)
    ensures
        exists|url_ok: bool|
            #![trigger shows_source(*source, url_ok, r)]
            shows_source(*source, url_ok, r) && (outside_link(source.source_type) is None ==> !url_ok),
{
    let url_ok = match link_to_check(source) {
        Some(text) => url_parses(text),
        None => false,
    };
    source_link_with(source, url_ok)
}

/// The text that `source_link` hands to the browser's URL check: the source's
/// own outside link, for a Spotify playlist or album or a setlist, and nothing
/// for any other source.
pub fn link_to_check(source: &Source) -> (r: Option<&str>)
    ensures
        r is Some <==> outside_link(source.source_type) is Some,
        r matches Some(t) ==> t@ == outside_link(source.source_type)->0.raw_id@,
{
    match &source.source_type {
        SourceType::Spotify(Spotify::Playlist(id)) | SourceType::Spotify(Spotify::Album(id))
        | SourceType::Setlist(id) => Some(id.raw_id.as_str()),
        _ => None,
    }
}

/// The push button is offered for lists that do not mirror an outside source.
pub fn shows_push(mode: &ListMode) -> (r: bool)
    ensures
        r == !(*mode is External),
{
    match mode {
        ListMode::External => false,
        _ => true,
    }
}

/// A list whose data sources are all Spotify sources, and which has one.
pub open spec fn only_spotify_sources(sources: Seq<Source>) -> bool {
    sources.len() > 0 && forall|k: int| 0 <= k < sources.len() ==> #[trigger] sources[k].source_type is Spotify
}

/// Pushing the list's items to a Spotify playlist is offered to a signed-in
/// user with a Spotify account, for a list that only uses Spotify sources.
pub fn push_available(list: &List, user: &Option<User>) -> (r: bool)
    ensures
        r == (user matches Some(u) && u.spotify_user is Some && only_spotify_sources(list.sources@)),
{
    let has_spotify = match user {
        Some(u) => match &u.spotify_user {
            Some(_) => true,
            None => false,
        },
        None => false,
    };
    if !has_spotify || list.sources.len() == 0 {
        return false;
    }
    let mut k: usize = 0;
    while k < list.sources.len()
        invariant
            k <= list.sources@.len(),
            forall|j: int| 0 <= j < k ==> #[trigger] list.sources@[j].source_type is Spotify,
        decreases list.sources.len() - k,
    {
        let spotify = match &list.sources[k].source_type {
            SourceType::Spotify(_) => true,
            _ => false,
        };
        if !spotify {
            return false;
        }
        k = k + 1;
    }
    true
}

/// The item page queries its items' state for lists that are not views; a
/// view's items keep no state.
pub fn runs_item_query(mode: &ListMode) -> (r: bool)
    ensures
        r == !(*mode is View),
{
    match mode {
        ListMode::View(_) => false,
        _ => true,
    }
}

/// The ratings of the item query's rows: the rating column when it holds
/// unsigned numbers (`Some`), else no rating for any of the `rows` rows.
pub fn rating_column(ratings: Option<Vec<Option<u64>>>, rows: usize) -> (r: Vec<Option<u64>>)
    ensures
        match ratings {
            Some(v) => r@ == v@,
            None => r@ == Seq::new(rows as nat, |i: int| None::<u64>),
        },
{
    match ratings {
        Some(v) => v,
        None => {
            let mut r: Vec<Option<u64>> = Vec::new();
            let mut i: usize = 0;
            while i < rows
                invariant
                    i <= rows,
                    r@ == Seq::new(i as nat, |j: int| None::<u64>),
                decreases rows - i,
            {
                r.push(None);
                i = i + 1;
                assert(r@ =~= Seq::new(i as nat, |j: int| None::<u64>));
            }
            r
        },
    }
}

/// Whether the server refused a save: it answered with a status of 400 or more.
pub fn save_refused(status: u16) -> (r: bool)
    ensures
        r == (status >= 400),
{
    status >= 400
}

/// The item page once the server has answered a save of `updates`: when it
/// took the save, the sent values become the items' state and that state
/// becomes the saved one; when it refused, both stay as they were.
pub fn settle_save(saved: &mut Vec<ItemState>, states: &mut Vec<ItemState>, updates: &Vec<ItemUpdate>, accepted: bool)
    requires
        forall|k: int| 0 <= k < updates@.len() ==> #[trigger] updates@[k].index < old(states)@.len(),
        forall|k: int, l: int| 0 <= k < l < updates@.len() ==> #[trigger] updates@[k].index != #[trigger] updates@[l].index,
    ensures
        !accepted ==> *final(saved) == *old(saved) && *final(states) == *old(states),
        accepted ==> {
            &&& final(states)@.len() == old(states)@.len()
            &&& forall|k: int| 0 <= k < updates@.len() ==> state_after_update(
                old(states)@[updates@[k].index as int],
                final(states)@[#[trigger] updates@[k].index as int],
                updates@[k],
            )
            &&& forall|i: int| 0 <= i < old(states)@.len() && (forall|k: int| 0 <= k < updates@.len() ==> #[trigger] updates@[k].index != i)
                ==> final(states)@[i] == old(states)@[i]
            &&& final(saved)@ == final(states)@
        },
{
    if !accepted {
        return;
    }
    apply_item_updates(states, updates);
    let mut copy: Vec<ItemState> = Vec::new();
    let mut i: usize = 0;
    while i < states.len()
        invariant
            i <= states@.len(),
            copy@ == states@.subrange(0, i as int),
        decreases states.len() - i,
    {
        copy.push(states[i].duplicate());
        i = i + 1;
        assert(copy@ =~= states@.subrange(0, i as int));
    }
    assert(copy@ =~= states@);
    *saved = copy;
}

} // verus!
