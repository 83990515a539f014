use mybops_wasm::sources::{parse_setlist_source, parse_spotify_source, Id, Spotify};

fn id(id: &str, raw: &str) -> Id {
    Id { id: id.to_string(), raw_id: raw.to_string() }
}

#[test]
fn spotify_playlist_link() {
    let link = "https://open.spotify.com/playlist/5MztFbRbMpyxbVYuOSfQV9?si=9db089ab25274efa";
    assert_eq!(
        parse_spotify_source(link.to_string()),
        Some(Spotify::Playlist(id("5MztFbRbMpyxbVYuOSfQV9", link)))
    );
}

#[test]
fn spotify_album_link() {
    let link = "https://open.spotify.com/album/4aawyAB9vmqN3uQ7FjRGTy";
    assert_eq!(parse_spotify_source(link.to_string()), Some(Spotify::Album(id("4aawyAB9vmqN3uQ7FjRGTy", link))));
}

#[test]
fn spotify_track_link() {
    let link = "https://open.spotify.com/track/3n3Ppam7vgaVa1iaRUc9Lp";
    assert_eq!(parse_spotify_source(link.to_string()), Some(Spotify::Track(id("3n3Ppam7vgaVa1iaRUc9Lp", link))));
}

#[test]
fn spotify_not_a_link() {
    assert_eq!(parse_spotify_source("not a link".to_string()), None);
    assert_eq!(parse_spotify_source(String::new()), None);
    assert_eq!(parse_spotify_source("https://open.spotify.com/artist/abc".to_string()), None);
}

#[test]
fn spotify_dot_matches_any_character() {
    let link = "https://openXspotifyYcom/album/abc";
    assert_eq!(parse_spotify_source(link.to_string()), Some(Spotify::Album(id("abc", link))));
}

#[test]
fn spotify_dot_does_not_match_line_feed() {
    assert_eq!(parse_spotify_source("https://open\nspotify.com/album/abc".to_string()), None);
}

#[test]
fn spotify_playlist_wins_over_earlier_track() {
    let link = "see https://open.spotify.com/track/abc and https://open.spotify.com/playlist/xyz";
    assert_eq!(parse_spotify_source(link.to_string()), Some(Spotify::Playlist(id("xyz", link))));
}

#[test]
fn spotify_first_playlist_in_text() {
    let link = "https://open.spotify.com/playlist/one https://open.spotify.com/playlist/two";
    assert_eq!(parse_spotify_source(link.to_string()), Some(Spotify::Playlist(id("one", link))));
}

#[test]
fn spotify_empty_id() {
    let link = "https://open.spotify.com/playlist/";
    assert_eq!(parse_spotify_source(link.to_string()), Some(Spotify::Playlist(id("", link))));
}

#[test]
fn spotify_id_stops_at_non_ascii_letter() {
    let link = "https://open.spotify.com/track/abcé9";
    assert_eq!(parse_spotify_source(link.to_string()), Some(Spotify::Track(id("abc", link))));
}

#[test]
fn setlist_link() {
    let link = "https://www.setlist.fm/setlist/the-beatles/1965/shea-stadium-new-york-ny-3bd6b8f0.html";
    assert_eq!(parse_setlist_source(link.to_string()), Some(id("3bd6b8f0", link)));
}

#[test]
fn setlist_group_backtracks_to_the_html_suffix() {
    let link = "https://www.setlist.fm/setlist/a-bcXhtml";
    assert_eq!(parse_setlist_source(link.to_string()), Some(id("bc", link)));
}

#[test]
fn setlist_takes_the_last_dash() {
    let link = "https://www.setlist.fm/setlist/a-b-c.html";
    assert_eq!(parse_setlist_source(link.to_string()), Some(id("c", link)));
}

#[test]
fn setlist_without_dash() {
    assert_eq!(parse_setlist_source("https://www.setlist.fm/setlist/abc.html".to_string()), None);
}

#[test]
fn setlist_not_across_line_feed() {
    assert_eq!(parse_setlist_source("https://www.setlist.fm/setlist/a\n-b.html".to_string()), None);
}

#[test]
fn setlist_not_a_link() {
    assert_eq!(parse_setlist_source("https://open.spotify.com/playlist/abc".to_string()), None);
}

#[test]
fn spotify_link_read_back_law() {
    for kind in ["playlist", "album", "track"] {
        for ident in ["", "a", "Z9", "5MztFbRbMpyxbVYuOSfQV9"] {
            let link = format!("https://open.spotify.com/{}/{}", kind, ident);
            let expected = match kind {
                "playlist" => Spotify::Playlist(id(ident, &link)),
                "album" => Spotify::Album(id(ident, &link)),
                _ => Spotify::Track(id(ident, &link)),
            };
            assert_eq!(parse_spotify_source(link.clone()), Some(expected));
        }
    }
}

#[test]
fn setlist_link_read_back_law() {
    for name in ["", "x", "the-band/2020/venue-city", "a b c"] {
        for ident in ["", "1", "3bd6b8f0"] {
            let link = format!("https://www.setlist.fm/setlist/{}-{}.html", name, ident);
            assert_eq!(parse_setlist_source(link.clone()), Some(id(ident, &link)));
        }
    }
}
