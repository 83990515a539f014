//! The data sources of a list and the links they are read from: Spotify
//! playlists, albums and tracks, setlist.fm setlists, other lists' items, and
//! custom JSON.
//!
//! A link is recognised as the client's patterns recognise it:
//! `https://open.spotify.com/playlist/([[:alnum:]]*)` (and likewise `album`
//! and `track`), and `https://www.setlist.fm/setlist/.*-([[:alnum:]]*).html`,
//! where `.` stands for any character but a line feed, `[[:alnum:]]` for an
//! ASCII letter or digit, the first match in the text is taken, and `*` takes
//! as much as it can while the rest still matches.

use vstd::prelude::*;

verus! {

/// An identifier read from a link, with the link it was read from.
#[derive(Clone, Debug, PartialEq, Eq)]
pub struct Id {
    /// The identifier.
    pub id: String,
    /// The whole link.
    pub raw_id: String,
}

/// A Spotify link.
#[derive(Clone, Debug, PartialEq, Eq)]
pub enum Spotify {
    Playlist(Id),
    Album(Id),
    Track(Id),
}

/// The pattern prefix of a Spotify playlist link.
pub open spec fn playlist_prefix() -> Seq<char> {
    "https://open.spotify.com/playlist/"@
}

/// The pattern prefix of a Spotify album link.
pub open spec fn album_prefix() -> Seq<char> {
    "https://open.spotify.com/album/"@
}

/// The pattern prefix of a Spotify track link.
pub open spec fn track_prefix() -> Seq<char> {
    "https://open.spotify.com/track/"@
}

/// The pattern prefix of a setlist.fm link.
pub open spec fn setlist_prefix() -> Seq<char> {
    "https://www.setlist.fm/setlist/"@
}

/// An ASCII letter or digit.
pub open spec fn is_alnum(c: char) -> bool {
    ('0' <= c && c <= '9') || ('a' <= c && c <= 'z') || ('A' <= c && c <= 'Z')
}

/// The text `s` at position `p` matches `pat`, where `.` in `pat` matches any
/// character but a line feed and every other character matches itself.
pub open spec fn pattern_at(s: Seq<char>, p: int, pat: Seq<char>) -> bool {
    &&& 0 <= p
    &&& p + pat.len() <= s.len()
    &&& forall|i: int|
        0 <= i < pat.len() ==> if pat[i] == '.' {
            #[trigger] s[p + i] != '\n'
        } else {
            s[p + i] == pat[i]
        }
}

/// Every character of `s` in `lo..hi` is an ASCII letter or digit.
pub open spec fn all_alnum(s: Seq<char>, lo: int, hi: int) -> bool {
    forall|i: int| lo <= i < hi ==> is_alnum(#[trigger] s[i])
}

/// No character of `s` in `lo..hi` is a line feed.
pub open spec fn no_line_feed(s: Seq<char>, lo: int, hi: int) -> bool {
    forall|i: int| lo <= i < hi ==> #[trigger] s[i] != '\n'
}

/// `e` ends the run of ASCII letters and digits that starts at `q`.
pub open spec fn run_end(s: Seq<char>, q: int, e: int) -> bool {
    &&& q <= e <= s.len()
    &&& all_alnum(s, q, e)
    &&& (e == s.len() || !is_alnum(s[e]))
}

/// A match of `pat([[:alnum:]]*)` at `p` whose group ends at `e`, taking as
/// many letters and digits as there are.
pub open spec fn prefix_match(s: Seq<char>, pat: Seq<char>, p: int, e: int) -> bool {
    pattern_at(s, p, pat) && run_end(s, p + pat.len(), e)
}

/// The group of the first match of `pat([[:alnum:]]*)` in `s`, if any.
pub open spec fn prefix_group(s: Seq<char>, pat: Seq<char>, g: Option<Seq<char>>) -> bool {
    match g {
        None => forall|p: int| !#[trigger] pattern_at(s, p, pat),
        Some(id) => exists|p: int, e: int|
            #[trigger] prefix_match(s, pat, p, e) && id == s.subrange(p + pat.len(), e) && forall|p2: int|
                p2 < p ==> !#[trigger] pattern_at(s, p2, pat),
    }
}

/// `html` preceded by any character but a line feed, at `j`.
pub open spec fn html_at(s: Seq<char>, j: int) -> bool {
    &&& 0 <= j
    &&& j + 5 <= s.len()
    &&& s[j] != '\n'
    &&& s[j + 1] == 'h'
    &&& s[j + 2] == 't'
    &&& s[j + 3] == 'm'
    &&& s[j + 4] == 'l'
}

/// A match of the setlist pattern starting at `p`, where the `-` stands at `k`
/// and the group ends at `j`.
pub open spec fn setlist_match(s: Seq<char>, p: int, k: int, j: int) -> bool {
    let q = p + setlist_prefix().len();
    &&& pattern_at(s, p, setlist_prefix())
    &&& q <= k < j
    &&& no_line_feed(s, q, k)
    &&& s[k] == '-'
    &&& all_alnum(s, k + 1, j)
    &&& html_at(s, j)
}

/// The group of the first match of the setlist pattern in `s`, if any: the
/// match that starts first, then the one whose `-` comes last, then the one
/// whose group is longest.
pub open spec fn setlist_group(s: Seq<char>, g: Option<Seq<char>>) -> bool {
    match g {
        None => forall|p: int, k: int, j: int| !#[trigger] setlist_match(s, p, k, j),
        Some(id) => exists|p: int, k: int, j: int|
            {
                &&& #[trigger] setlist_match(s, p, k, j)
                &&& id == s.subrange(k + 1, j)
                &&& forall|p2: int, k2: int, j2: int|
                    #[trigger] setlist_match(s, p2, k2, j2) ==> p < p2 || (p == p2 && (k2 < k || (k2 == k
                        && j2 <= j)))
            },
    }
}

proof fn lemma_prefix_at_start(pat: Seq<char>, id: Seq<char>)
    requires
        forall|i: int| 0 <= i < pat.len() ==> #[trigger] pat[i] != '\n',
        all_alnum(id, 0, id.len() as int),
    ensures
        prefix_match(pat + id, pat, 0, (pat + id).len() as int),
        (pat + id).subrange(pat.len() as int, (pat + id).len() as int) == id,
{
    let s = pat + id;
    assert forall|i: int| 0 <= i < pat.len() implies if pat[i] == '.' {
        #[trigger] s[0 + i] != '\n'
    } else {
        s[0 + i] == pat[i]
    } by {
        assert(s[i] == pat[i]);
    }
    assert forall|i: int| pat.len() <= i < s.len() implies is_alnum(#[trigger] s[i]) by {
        assert(s[i] == id[i - pat.len()]);
    }
    assert(s.subrange(pat.len() as int, s.len() as int) =~= id);
}

/// A Spotify link made of the playlist, album or track prefix and an id of
/// ASCII letters and digits reads back as that kind of link with that id.
pub proof fn law_spotify_link_read_back(id: Seq<char>)
    requires
        all_alnum(id, 0, id.len() as int),
    ensures
        prefix_group(playlist_prefix() + id, playlist_prefix(), Some(id)),
        prefix_group(album_prefix() + id, playlist_prefix(), None),
        prefix_group(album_prefix() + id, album_prefix(), Some(id)),
        prefix_group(track_prefix() + id, playlist_prefix(), None),
        prefix_group(track_prefix() + id, album_prefix(), None),
        prefix_group(track_prefix() + id, track_prefix(), Some(id)),
{
    reveal_strlit("https://open.spotify.com/playlist/");
    reveal_strlit("https://open.spotify.com/album/");
    reveal_strlit("https://open.spotify.com/track/");
    let pl = playlist_prefix();
    let al = album_prefix();
    let tr = track_prefix();
    assert(forall|i: int| 0 <= i < pl.len() ==> #[trigger] pl[i] != '\n');
    assert(forall|i: int| 0 <= i < al.len() ==> #[trigger] al[i] != '\n');
    assert(forall|i: int| 0 <= i < tr.len() ==> #[trigger] tr[i] != '\n');
    lemma_prefix_at_start(pl, id);
    lemma_prefix_at_start(al, id);
    lemma_prefix_at_start(tr, id);
    assert(prefix_match(pl + id, pl, 0, (pl + id).len() as int));
    assert(prefix_match(al + id, al, 0, (al + id).len() as int));
    assert(prefix_match(tr + id, tr, 0, (tr + id).len() as int));
    reveal_strlit("https://open.spotify.com/");
    assert(al.subrange(0, 25) =~= "https://open.spotify.com/"@);
    assert(tr.subrange(0, 25) =~= "https://open.spotify.com/"@);
    lemma_only_colon_at_five(al, id);
    lemma_only_colon_at_five(tr, id);
    assert forall|p: int| !#[trigger] pattern_at(al + id, p, pl) by {
        if pattern_at(al + id, p, pl) {
            assert(pl[5] == ':');
            assert((al + id)[p + 5] == ':');
            assert((al + id)[p + 25] == pl[25]);
        }
    }
    assert forall|p: int| !#[trigger] pattern_at(tr + id, p, pl) by {
        if pattern_at(tr + id, p, pl) {
            assert(pl[5] == ':');
            assert((tr + id)[p + 5] == ':');
            assert((tr + id)[p + 25] == pl[25]);
        }
    }
    assert forall|p: int| !#[trigger] pattern_at(tr + id, p, al) by {
        if pattern_at(tr + id, p, al) {
            assert(al[5] == ':');
            assert((tr + id)[p + 5] == ':');
            assert((tr + id)[p + 25] == al[25]);
        }
    }
}

/// A setlist link made of the setlist.fm prefix, a name without line feeds,
/// a `-`, an id of ASCII letters and digits, and `.html` reads back that id.
pub proof fn law_setlist_link_read_back(name: Seq<char>, id: Seq<char>)
    requires
        no_line_feed(name, 0, name.len() as int),
        all_alnum(id, 0, id.len() as int),
    ensures
        setlist_group(setlist_prefix() + name + "-"@ + id + ".html"@, Some(id)),
{
    reveal_strlit("https://www.setlist.fm/setlist/");
    reveal_strlit("-");
    reveal_strlit(".html");
    let pre = setlist_prefix();
    let s = pre + name + "-"@ + id + ".html"@;
    let q = pre.len() as int;
    let k = q + name.len();
    let j = k + 1 + id.len();
    assert(s.len() == j + 5);
    assert forall|i: int| 0 <= i < pre.len() implies if pre[i] == '.' {
        #[trigger] s[0 + i] != '\n'
    } else {
        s[0 + i] == pre[i]
    } by {
        assert(s[i] == pre[i]);
    }
    assert(pattern_at(s, 0, pre));
    assert forall|i: int| q <= i < k implies #[trigger] s[i] != '\n' by {
        assert(s[i] == name[i - q]);
    }
    assert(s[k] == '-');
    assert forall|i: int| k + 1 <= i < j implies is_alnum(#[trigger] s[i]) by {
        assert(s[i] == id[i - k - 1]);
    }
    assert(s[j] == '.');
    assert(s[j + 1] == 'h');
    assert(s[j + 2] == 't');
    assert(s[j + 3] == 'm');
    assert(s[j + 4] == 'l');
    assert(setlist_match(s, 0, k, j));
    assert(s.subrange(k + 1, j) =~= id);
    assert forall|i: int| k < i < s.len() implies #[trigger] s[i] != '-' by {
        if i < j {
            assert(s[i] == id[i - k - 1]);
            assert(is_alnum(s[i]));
        }
    }
    assert forall|p2: int, k2: int, j2: int| #[trigger] setlist_match(s, p2, k2, j2)
        implies 0 < p2 || (0 == p2 && (k2 < k || (k2 == k && j2 <= j))) by {
        if p2 == 0 {
            assert(s[k2] == '-');
            if k2 == k && j2 > j {
                assert(is_alnum(s[j]));
            }
        }
    }
}

/// In a link made of a Spotify prefix and an id of letters and digits, the only
/// colon is the one of `https:`.
proof fn lemma_only_colon_at_five(pat: Seq<char>, id: Seq<char>)
    requires
        pat.len() > 25,
        pat.subrange(0, 25) == "https://open.spotify.com/"@,
        forall|i: int| 25 <= i < pat.len() ==> #[trigger] pat[i] != ':',
        all_alnum(id, 0, id.len() as int),
    ensures
        forall|i: int| 0 <= i < (pat + id).len() && #[trigger] (pat + id)[i] == ':' ==> i == 5,
{
    reveal_strlit("https://open.spotify.com/");
    let s = pat + id;
    assert forall|i: int| 0 <= i < s.len() && #[trigger] s[i] == ':' implies i == 5 by {
        if i < 25 {
            assert(s[i] == pat.subrange(0, 25)[i]);
        } else if i < pat.len() {
            assert(s[i] == pat[i]);
        } else {
            assert(s[i] == id[i - pat.len()]);
        }
    }
}

/// The characters of a string.
pub fn chars_of(s: &str) -> (v: Vec<char>)
    ensures
        v@ == s@,
{
    let n = s.unicode_len();
    let mut v: Vec<char> = Vec::new();
    let mut i: usize = 0;
    while i < n
        invariant
            n == s@.len(),
            i <= n,
            v@ == s@.subrange(0, i as int),
        decreases n - i,
    {
        v.push(s.get_char(i));
        i = i + 1;
        assert(v@ =~= s@.subrange(0, i as int));
    }
    v
}

fn alnum(c: char) -> (r: bool)
    ensures
        r == is_alnum(c),
{
    ('0' <= c && c <= '9') || ('a' <= c && c <= 'z') || ('A' <= c && c <= 'Z')
}

/// Whether `pat` matches `s` at `p`.
fn matches_at(s: &Vec<char>, p: usize, pat: &Vec<char>) -> (r: bool)
    ensures
        r == pattern_at(s@, p as int, pat@),
{
    let n = s.len();
    if p > n || n - p < pat.len() {
        return false;
    }
    let mut i: usize = 0;
    while i < pat.len()
        invariant
            n == s@.len(),
            p + pat@.len() <= s@.len(),
            i <= pat@.len(),
            forall|m: int|
                0 <= m < i ==> if pat@[m] == '.' {
                    #[trigger] s@[p + m] != '\n'
                } else {
                    s@[p + m] == pat@[m]
                },
        decreases pat.len() - i,
    {
        let c = s[p + i];
        if pat[i] == '.' {
            if c == '\n' {
                return false;
            }
        } else if c != pat[i] {
            return false;
        }
        i = i + 1;
    }
    true
}

/// The end of the run of ASCII letters and digits that starts at `q`.
fn alnum_run_end(s: &Vec<char>, q: usize) -> (e: usize)
    requires
        q <= s@.len(),
    ensures
        run_end(s@, q as int, e as int),
{
    let mut e = q;
    while e < s.len() && alnum(s[e])
        invariant
            q <= e <= s@.len(),
            all_alnum(s@, q as int, e as int),
        decreases s.len() - e,
    {
        e = e + 1;
    }
    e
}

/// The group of the first match of `pat([[:alnum:]]*)` in `s`.
fn first_prefix_group(s: &str, pat: &str) -> (r: Option<String>)
    requires
        pat@.len() > 0,
    ensures
        prefix_group(s@, pat@, match r { Some(x) => Some(x@), None => None }),
{
    let cs = chars_of(s);
    let ps = chars_of(pat);
    let n = cs.len();
    let mut p: usize = 0;
    while p < n
        invariant
            cs@ == s@,
            ps@ == pat@,
            n == cs@.len(),
            p <= n,
            forall|p2: int| p2 < p ==> !#[trigger] pattern_at(s@, p2, pat@),
        decreases n - p,
    {
        if matches_at(&cs, p, &ps) {
            let start = p + ps.len();
            let e = alnum_run_end(&cs, start);
            let id = String::from_str(s.substring_char(start, e));
            assert(prefix_match(s@, pat@, p as int, e as int));
            return Some(id);
        }
        p = p + 1;
    }
    assert forall|p2: int| !#[trigger] pattern_at(s@, p2, pat@) by {
        if p2 >= p {
            assert(p2 + pat@.len() > s@.len());
        }
    }
    None
}

/// Reads a Spotify link: a playlist, album or track link, tried in that order.
pub open spec fn spotify_link_read(input: Seq<char>, r: Option<Spotify>) -> bool {
    match r {
        Some(Spotify::Playlist(id)) => id.raw_id@ == input && prefix_group(input, playlist_prefix(), Some(id.id@)),
        Some(Spotify::Album(id)) => id.raw_id@ == input && prefix_group(input, playlist_prefix(), None)
            && prefix_group(input, album_prefix(), Some(id.id@)),
        Some(Spotify::Track(id)) => id.raw_id@ == input && prefix_group(input, playlist_prefix(), None)
            && prefix_group(input, album_prefix(), None) && prefix_group(input, track_prefix(), Some(id.id@)),
        None => prefix_group(input, playlist_prefix(), None) && prefix_group(input, album_prefix(), None)
            && prefix_group(input, track_prefix(), None),
    }
}

/// Reads a Spotify playlist, album or track link.
pub fn parse_spotify_source(input: String) -> (r: Option<Spotify>)
    ensures
        spotify_link_read(input@, r),
{
    proof {
        reveal_strlit("https://open.spotify.com/playlist/");
        reveal_strlit("https://open.spotify.com/album/");
        reveal_strlit("https://open.spotify.com/track/");
    }
    if let Some(id) = first_prefix_group(input.as_str(), "https://open.spotify.com/playlist/") {
        return Some(Spotify::Playlist(Id { id, raw_id: input }));
    }
    if let Some(id) = first_prefix_group(input.as_str(), "https://open.spotify.com/album/") {
        return Some(Spotify::Album(Id { id, raw_id: input }));
    }
    if let Some(id) = first_prefix_group(input.as_str(), "https://open.spotify.com/track/") {
        return Some(Spotify::Track(Id { id, raw_id: input }));
    }
    None
}

/// Whether `html`, preceded by any character but a line feed, stands at `j`.
fn html_follows(s: &Vec<char>, j: usize) -> (r: bool)
    ensures
        r == html_at(s@, j as int),
{
    j <= s.len() && s.len() - j >= 5 && s[j] != '\n' && s[j + 1] == 'h' && s[j + 2] == 't' && s[j + 3]
        == 'm' && s[j + 4] == 'l'
}

/// The setlist match at `p` with the latest `-` and, for it, the longest group.
fn setlist_match_at(s: &Vec<char>, p: usize, prefix: &Vec<char>) -> (r: Option<(usize, usize)>)
    requires
        prefix@ == setlist_prefix(),
    ensures
        match r {
            Some((k, j)) => setlist_match(s@, p as int, k as int, j as int) && forall|k2: int, j2: int|
                #[trigger] setlist_match(s@, p as int, k2, j2) ==> k2 < k || (k2 == k && j2 <= j),
            None => forall|k2: int, j2: int| !#[trigger] setlist_match(s@, p as int, k2, j2),
        },
{
    if !matches_at(s, p, prefix) {
        return None;
    }
    let n = s.len();
    let q = p + prefix.len();
    // the furthest that `.*` can reach: up to the first line feed or the end
    let mut limit = q;
    while limit < s.len() && s[limit] != '\n'
        invariant
            q <= limit <= s@.len(),
            no_line_feed(s@, q as int, limit as int),
        decreases s.len() - limit,
    {
        limit = limit + 1;
    }
    // try each position of `-`, the latest first
    let mut k = limit;
    while k > q
        invariant
            q <= k <= limit,
            pattern_at(s@, p as int, setlist_prefix()),
            q == p + setlist_prefix().len(),
            limit <= s@.len(),
            no_line_feed(s@, q as int, limit as int),
            limit == s@.len() || s@[limit as int] == '\n',
            forall|k2: int, j2: int| k <= k2 && #[trigger] setlist_match(s@, p as int, k2, j2) ==> false,
        decreases k - q,
    {
        let kk = k - 1;
        if kk < s.len() && s[kk] == '-' {
            let e = alnum_run_end(s, kk + 1);
            // try each end of the group, the longest first
            let mut j = e;
            while j > kk
                invariant
                    kk < s@.len(),
                    kk + 1 <= e,
                    kk <= j <= e,
                    run_end(s@, kk + 1, e as int),
                    pattern_at(s@, p as int, setlist_prefix()),
                    q == p + setlist_prefix().len(),
                    q <= kk < limit,
                    no_line_feed(s@, q as int, kk as int),
                    s@[kk as int] == '-',
                    forall|k2: int, j2: int| kk < k2 && #[trigger] setlist_match(s@, p as int, k2, j2) ==> false,
                    forall|j2: int| j < j2 <= e ==> !html_at(s@, j2),
                decreases j,
            {
                if html_follows(s, j) {
                    proof {
                        assert(setlist_match(s@, p as int, kk as int, j as int));
                        assert forall|k2: int, j2: int| #[trigger] setlist_match(s@, p as int, k2, j2)
                            implies k2 < kk || (k2 == kk && j2 <= j) by {
                            if k2 == kk && j2 > j {
                                if j2 > e {
                                    assert(is_alnum(s@[e as int]));
                                }
                            }
                        }
                    }
                    return Some((kk, j));
                }
                j = j - 1;
            }
            assert forall|k2: int, j2: int| kk <= k2 && #[trigger] setlist_match(s@, p as int, k2, j2)
                implies false by {
                if k2 == kk {
                    if j2 > e {
                        assert(is_alnum(s@[e as int]));
                    }
                }
            }
        }
        k = kk;
    }
    assert forall|k2: int, j2: int| !#[trigger] setlist_match(s@, p as int, k2, j2) by {
        if setlist_match(s@, p as int, k2, j2) {
            if k2 > limit {
                assert(s@[limit as int] != '\n');
            }
        }
    }
    None
}

/// Reads a setlist.fm setlist link.
pub fn parse_setlist_source(input: String) -> (r: Option<Id>)
    ensures
        setlist_group(input@, match r { Some(id) => Some(id.id@), None => None }),
        r matches Some(id) ==> id.raw_id@ == input@,
{
    proof {
        reveal_strlit("https://www.setlist.fm/setlist/");
    }
    let cs = chars_of(input.as_str());
    let prefix = chars_of("https://www.setlist.fm/setlist/");
    let n = cs.len();
    let mut p: usize = 0;
    while p < n
        invariant
            cs@ == input@,
            prefix@ == setlist_prefix(),
            setlist_prefix().len() > 0,
            n == cs@.len(),
            p <= n,
            forall|p2: int, k2: int, j2: int| p2 < p ==> !#[trigger] setlist_match(input@, p2, k2, j2),
        decreases n - p,
    {
        if let Some((k, j)) = setlist_match_at(&cs, p, &prefix) {
            let id = String::from_str(input.as_str().substring_char(k + 1, j));
            return Some(Id { id, raw_id: input });
        }
        p = p + 1;
    }
    assert forall|p2: int, k2: int, j2: int| !#[trigger] setlist_match(input@, p2, k2, j2) by {
        if p2 >= p && setlist_match(input@, p2, k2, j2) {
            assert(pattern_at(input@, p2, setlist_prefix()));
        }
    }
    None
}

} // verus!
