use r_audio::api::{artist_search_url, cached_playlist_usable, playlist_items_url};
use r_audio::api::{playlist_meta_error, playlist_without_items};
use r_audio::parser::duration_fits;
use r_audio::api::{
    page_fits, page_sequence_fits, playlist_tracks_in_page_order, user_playlists_in_page_order, user_playlists_url,
};
use r_audio::api::{
    album_id_of, contains_track, first_liked, first_search_hit, is_api_error, next_page_url,
    parse_album_meta, parse_album_tracks, parse_artist_albums, parse_artist_header, parse_artist_top_tracks,
    parse_playlist_item, parse_playlist_meta, parse_recently_played, parse_search, parse_top_artists,
    parse_user_playlists, plan_playlist_pages, playlist_tracks, recommendation_queries, snapshot_id_of,
    strip_track_uri, strip_user_uri, text_less, track_uri,
};
use r_audio::json::{JsonNumber, JsonValue};
use r_audio::parser::SpotifyParser;
use r_audio::providers::Track;

fn obj(members: Vec<(&str, JsonValue)>) -> JsonValue {
    JsonValue::Object(members.into_iter().map(|(k, v)| (k.to_string(), v)).collect())
}

fn s(x: &str) -> JsonValue {
    JsonValue::Str(x.to_string())
}

fn n(x: u64) -> JsonValue {
    JsonValue::Number(JsonNumber { as_u64: Some(x), as_i64: if x <= i64::MAX as u64 { Some(x as i64) } else { None } })
}

fn arr(v: Vec<JsonValue>) -> JsonValue {
    JsonValue::Array(v)
}

fn images(url: &str) -> JsonValue {
    arr(vec![obj(vec![("url", s(url))])])
}

fn track_json(id: &str, name: &str, artist: &str, ms: u64) -> JsonValue {
    obj(vec![
        ("id", s(id)),
        ("name", s(name)),
        ("duration_ms", n(ms)),
        ("artists", arr(vec![obj(vec![("name", s(artist)), ("id", s(&format!("{artist}-id")))])])),
        ("album", obj(vec![("images", images(&format!("https://img/{id}")))])),
    ])
}

fn ids(ts: &[Track]) -> Vec<String> {
    ts.iter().map(|t| t.id.clone()).collect()
}

#[test]
fn lenient_track_rounds_duration_and_fills_defaults() {
    let t = SpotifyParser::parse_track_lenient(&track_json("t1", "Song", "Band", 225_500)).unwrap();
    assert_eq!(t.id, "t1");
    assert_eq!(t.title, "Song");
    assert_eq!(t.artist, "Band");
    assert_eq!(t.artist_id, "Band-id");
    assert_eq!(t.album_url, "https://img/t1");
    assert_eq!(t.duration_str, "3:46");
    let bare = obj(vec![("id", s("x")), ("artists", arr(vec![obj(vec![])]))]);
    let b = SpotifyParser::parse_track_lenient(&bare).unwrap();
    assert_eq!((b.title.as_str(), b.artist.as_str(), b.artist_id.as_str()), ("Unknown", "Unknown Artist", ""));
    assert_eq!(b.duration_str, "0:00");
}

#[test]
fn lenient_track_needs_id_and_artists() {
    assert!(SpotifyParser::parse_track_lenient(&obj(vec![("artists", arr(vec![obj(vec![])]))])).is_none());
    assert!(SpotifyParser::parse_track_lenient(&obj(vec![("id", s("x")), ("artists", arr(vec![]))])).is_none());
    assert!(SpotifyParser::parse_track_lenient(&obj(vec![("id", n(5)), ("artists", arr(vec![obj(vec![])]))])).is_none());
}

#[test]
fn tracks_from_json_truncate_duration() {
    let json = obj(vec![("tracks", obj(vec![("items", arr(vec![track_json("a", "A", "X", 59_999), obj(vec![])]))]))]);
    let ts = SpotifyParser::parse_tracks_from_json(json).unwrap();
    assert_eq!(ts.len(), 2);
    assert_eq!(ts[0].duration_str, "0:59");
    assert_eq!(ts[1].id, "");
    assert_eq!(ts[1].title, "Unknown");
    assert_eq!(ts[1].artist, "Unknown Artist");
    assert!(SpotifyParser::parse_tracks_from_json(JsonValue::Null).unwrap().is_empty());
}

#[test]
fn top_artists_as_tiles() {
    let json = obj(vec![("items", arr(vec![obj(vec![("id", s("a1")), ("name", s("Ann")), ("images", images("u"))]), obj(vec![])]))]);
    let ts = parse_top_artists(&json);
    assert_eq!(ts.len(), 2);
    assert_eq!((ts[0].id.as_str(), ts[0].artist_id.as_str(), ts[0].artist.as_str(), ts[0].album_url.as_str()), ("a1", "a1", "Artist", "u"));
    assert_eq!(ts[1].title, "Unknown");
}

#[test]
fn user_playlists_owned_or_collaborative() {
    let mine = obj(vec![("id", s("p1")), ("name", s("Mine")), ("owner", obj(vec![("id", s("me")), ("display_name", s("Me"))])), ("snapshot_id", s("snap1"))]);
    let theirs = obj(vec![("id", s("p2")), ("owner", obj(vec![("id", s("you"))]))]);
    let collab = obj(vec![("id", s("p3")), ("owner", obj(vec![("id", s("you"))])), ("collaborative", JsonValue::Bool(true))]);
    let json = obj(vec![("items", arr(vec![mine, theirs, collab]))]);
    let ps = parse_user_playlists(&json, "me");
    assert_eq!(ids(&ps), vec!["p1", "p3"]);
    assert_eq!((ps[0].artist.as_str(), ps[0].duration_str.as_str()), ("Me", "snap1"));
    assert_eq!((ps[1].title.as_str(), ps[1].artist.as_str()), ("Playlist", "Spotify"));
}

#[test]
fn playlist_meta_defaults() {
    assert_eq!(
        parse_playlist_meta(&JsonValue::Null),
        ("Selected Playlist".to_string(), "Spotify".to_string(), String::new())
    );
}

#[test]
fn playlist_items_take_track_or_item_and_cover() {
    let with_track = obj(vec![("track", obj(vec![("id", s("t1")), ("artists", arr(vec![obj(vec![])]))]))]);
    let with_item = obj(vec![("track", JsonValue::Null), ("item", track_json("t2", "B", "Y", 1000))]);
    let local = obj(vec![("track", obj(vec![("id", JsonValue::Null)]))]);
    assert_eq!(parse_playlist_item(&with_track, "cov").unwrap().album_url, "cov");
    assert_eq!(parse_playlist_item(&with_item, "cov").unwrap().album_url, "https://img/t2");
    assert!(parse_playlist_item(&local, "cov").is_none());
    let pages = vec![obj(vec![("items", arr(vec![with_track]))]), obj(vec![("items", arr(vec![local, with_item]))])];
    assert_eq!(ids(&playlist_tracks(&pages, "cov")), vec!["t1", "t2"]);
}

#[test]
fn page_plan_covers_the_rest() {
    let p = plan_playlist_pages(&obj(vec![("limit", n(100)), ("total", n(250))]));
    assert_eq!(p.per_page, 100);
    assert_eq!(p.offsets, vec![100, 200]);
    let q = plan_playlist_pages(&obj(vec![("total", n(50))]));
    assert_eq!(q.per_page, 50);
    assert!(q.offsets.is_empty());
    let r = plan_playlist_pages(&obj(vec![("limit", n(0)), ("total", n(101))]));
    assert_eq!(r.offsets, vec![50, 100]);
}

#[test]
fn artist_page_parts() {
    assert!(is_api_error(&obj(vec![("error", obj(vec![("status", n(404))]))])));
    assert!(!is_api_error(&obj(vec![("error", s("x"))])));
    assert_eq!(parse_artist_header(&JsonValue::Null), ("Unknown Artist".to_string(), String::new()));
    let search = obj(vec![("tracks", obj(vec![("items", arr(vec![track_json("a", "A", "X", 61_999), obj(vec![("id", JsonValue::Null)])]))]))]);
    let top = parse_artist_top_tracks(&search);
    assert_eq!(ids(&top), vec!["a"]);
    assert_eq!(top[0].duration_str, "1:01");
}

#[test]
fn albums_newest_first_stable() {
    let alb = |id: &str, date: &str| obj(vec![("id", s(id)), ("release_date", s(date)), ("name", s(id))]);
    let json = obj(vec![("items", arr(vec![alb("old", "2001-05-01"), alb("new", "2020"), alb("mid1", "2010-01-01"), alb("mid2", "2010-01-01"), obj(vec![("release_date", s("2030"))])]))]);
    let ts = parse_artist_albums(&json);
    assert_eq!(ids(&ts), vec!["new", "mid1", "mid2", "old"]);
    assert_eq!(ts[0].artist, "2020");
    assert_eq!(ts[3].artist, "2001");
    assert_eq!(ts[0].duration_str, "album");
}

#[test]
fn recently_played_dedups_and_caps() {
    let mut items = vec![];
    for i in 0..13 {
        items.push(obj(vec![("track", track_json(&format!("t{}", i % 12), "S", "A", 1000))]));
    }
    items.insert(1, obj(vec![("track", track_json("t0", "again", "A", 1000))]));
    let ts = parse_recently_played(&obj(vec![("items", arr(items))]));
    assert_eq!(ts.len(), 10);
    assert_eq!(ids(&ts), (0..10).map(|i| format!("t{i}")).collect::<Vec<_>>());
    assert_eq!(ts[0].title, "S");
}

#[test]
fn album_listing() {
    let meta = obj(vec![("name", s("LP")), ("artists", arr(vec![obj(vec![("name", s("Band"))])])), ("images", images("c"))]);
    assert_eq!(parse_album_meta(&meta), ("LP".to_string(), "Band".to_string(), "c".to_string()));
    let listing = obj(vec![("items", arr(vec![track_json("a", "A", "X", 1000)]))]);
    let ts = parse_album_tracks(&listing, &"c".to_string());
    assert_eq!(ts[0].album_url, "c");
}

#[test]
fn search_results_and_paging() {
    let json = obj(vec![("tracks", obj(vec![("items", arr(vec![track_json("a", "A", "X", 1000), obj(vec![("id", s("noartists"))])])), ("next", s("https://next"))]))]);
    let (ts, next) = parse_search(&json);
    assert_eq!(ids(&ts), vec!["a"]);
    assert_eq!(next, Some("https://next".to_string()));
    assert_eq!(next_page_url(&obj(vec![("tracks", obj(vec![("next", JsonValue::Null)]))])), None);
    assert_eq!(first_search_hit(&json).unwrap().id, "a");
    assert!(first_search_hit(&obj(vec![("tracks", obj(vec![("items", arr(vec![]))]))])).is_none());
}

#[test]
fn write_response_fields_and_errors() {
    assert_eq!(snapshot_id_of(&obj(vec![("snapshot_id", s("s9"))])), Ok("s9".to_string()));
    assert_eq!(snapshot_id_of(&JsonValue::Null), Err("No snapshot_id returned from Spotify API".to_string()));
    assert_eq!(album_id_of(&obj(vec![("album", obj(vec![("id", s("al"))]))])), Ok("al".to_string()));
    assert_eq!(album_id_of(&obj(vec![])), Err("No album id found".to_string()));
    assert!(first_liked(&vec![true, false]));
    assert!(!first_liked(&vec![]));
}

#[test]
fn uris_and_queries() {
    assert_eq!(strip_user_uri("spotify:user:me"), "me");
    assert_eq!(strip_track_uri("spotify:track:abc"), "abc");
    assert_eq!(strip_track_uri("abc"), "abc");
    assert_eq!(track_uri("abc"), "spotify:track:abc");
    assert_eq!(
        recommendation_queries("Song", "Band"),
        ("track:\"Song\" artist:\"Band\"".to_string(), "Song Band".to_string())
    );
    let ts = vec![Track::spotify(String::new(), "spotify:track:x".into(), "T".into(), "A".into(), String::new(), String::new())];
    assert!(contains_track(&ts, "x"));
    assert!(!contains_track(&ts, "y"));
}

#[test]
fn text_order_by_code_points() {
    assert!(text_less("2001", "2010"));
    assert!(text_less("", "a"));
    assert!(!text_less("b", "a"));
    assert!(!text_less("a", "a"));
    assert!(text_less("ab", "abc"));
}

#[test]
fn request_urls() {
    assert_eq!(
        artist_search_url("AC/DC & Co~"),
        "https://api.spotify.com/v1/search?q=artist%3AAC%2FDC%20%26%20Co~&type=track&limit=10&market=US"
    );
    assert_eq!(
        artist_search_url("Bj\u{f6}rk"),
        "https://api.spotify.com/v1/search?q=artist%3ABj%C3%B6rk&type=track&limit=10&market=US"
    );
    assert_eq!(
        playlist_items_url("p1", 100, 50),
        "https://api.spotify.com/v1/playlists/p1/items?offset=100&limit=50"
    );
    assert!(!cached_playlist_usable(&("n".to_string(), "o".to_string(), "c".to_string(), vec![])));
    let t = Track::spotify(String::new(), "x".into(), "T".into(), "A".into(), String::new(), String::new());
    assert!(cached_playlist_usable(&("n".to_string(), "o".to_string(), "c".to_string(), vec![t])));
}

fn item(id: &str) -> JsonValue {
    obj(vec![("track", track_json(id, "T", "A", 1000))])
}

#[test]
fn playlist_pages_are_read_in_page_order_whatever_order_they_arrive() {
    let first = obj(vec![("items", arr(vec![item("a")]))]);
    let later = vec![
        (2, obj(vec![("items", arr(vec![item("d")]))])),
        (0, obj(vec![("items", arr(vec![item("b")]))])),
        (1, obj(vec![("items", arr(vec![item("c")]))])),
    ];
    assert!(page_sequence_fits(&first, &later, 3));
    assert_eq!(ids(&playlist_tracks_in_page_order(&first, &later, 3, "cov")), vec!["a", "b", "c", "d"]);
    // A page that failed to arrive is skipped; pages past `n` are not read.
    let gaps = vec![(2, obj(vec![("items", arr(vec![item("d")]))])), (0, obj(vec![("items", arr(vec![item("b")]))]))];
    assert_eq!(ids(&playlist_tracks_in_page_order(&first, &gaps, 3, "cov")), vec!["a", "b", "d"]);
    assert_eq!(ids(&playlist_tracks_in_page_order(&first, &gaps, 1, "cov")), vec!["a", "b"]);
}

#[test]
fn page_checks_find_durations_that_overflow() {
    let huge = || obj(vec![("items", arr(vec![obj(vec![("track", track_json("x", "T", "A", u64::MAX))])]))]);
    let fine = obj(vec![("items", arr(vec![item("a")]))]);
    assert!(page_fits(&fine));
    assert!(!page_fits(&huge()));
    assert!(!page_sequence_fits(&fine, &vec![(0, huge())], 1));
    assert!(!page_sequence_fits(&huge(), &vec![], 0));
    assert!(page_sequence_fits(&fine, &vec![(5, huge())], 1));
}

#[test]
fn user_playlists_join_every_page_in_order() {
    let pl = |id: &str, owner: &str| obj(vec![("id", s(id)), ("owner", obj(vec![("id", s(owner))]))]);
    let first = obj(vec![("items", arr(vec![pl("p1", "me"), pl("p2", "you")])), ("total", n(5)), ("limit", n(2))]);
    let plan = plan_playlist_pages(&first);
    assert_eq!(plan.offsets, vec![2, 4]);
    let later = vec![(1, obj(vec![("items", arr(vec![pl("p5", "me")]))])), (0, obj(vec![("items", arr(vec![pl("p3", "me"), pl("p4", "me")]))]))];
    let ps = user_playlists_in_page_order(&first, &later, plan.offsets.len() as u64, "me");
    assert_eq!(ids(&ps), vec!["p1", "p3", "p4", "p5"]);
    assert_eq!(user_playlists_url(50, 50), "https://api.spotify.com/v1/me/playlists?offset=50&limit=50");
}

#[test]
fn dropped_nodes_may_carry_any_duration() {
    let null_id = obj(vec![("track", obj(vec![("id", JsonValue::Null), ("duration_ms", n(u64::MAX))]))]);
    let page = obj(vec![("items", arr(vec![null_id, item("a")]))]);
    assert!(page_fits(&page));
    assert_eq!(ids(&playlist_tracks_in_page_order(&page, &vec![], 0, "cov")), vec!["a"]);
    let no_artists = obj(vec![("id", s("x")), ("artists", arr(vec![])), ("duration_ms", n(u64::MAX))]);
    assert!(duration_fits(&no_artists));
    assert!(SpotifyParser::parse_track_lenient(&no_artists).is_none());
    let kept = obj(vec![("id", s("x")), ("artists", arr(vec![obj(vec![])])), ("duration_ms", n(u64::MAX))]);
    assert!(!duration_fits(&kept));
    let fits = obj(vec![("id", s("x")), ("artists", arr(vec![obj(vec![])])), ("duration_ms", n(u64::MAX - 500))]);
    assert!(duration_fits(&fits));
}

#[test]
fn refused_playlist_requests() {
    let body = "x".repeat(310);
    let msg = playlist_meta_error("404 Not Found", "p1", &body);
    assert_eq!(msg, format!("Spotify 404 Not Found for playlist meta p1: {}", "x".repeat(300)));
    assert_eq!(playlist_meta_error("500 Internal Server Error", "p", "oops"), "Spotify 500 Internal Server Error for playlist meta p: oops");
    let e = playlist_without_items("N".to_string(), "O".to_string(), "C".to_string());
    assert_eq!((e.0.as_str(), e.1.as_str(), e.2.as_str(), e.3.len()), ("N", "O", "C", 0));
}
