//! What the kiosk takes from each Spotify Web API response: playlists, top
//! artists, artist pages, albums, recently played, search results, paging,
//! and the small fields of write responses.
use vstd::prelude::*;
use vstd::string::StringSliceAdditionalSpecFns;
use crate::json::{
    JsonValue, as_array, as_bool, as_str, elem, elem_of, field, field_of, is_null, is_object,
    items_of, str_or, string_or,
};
use crate::parser::{
    SpotifyParser, duration_in_range, duration_ms_of, durations_in_range, first_image_url,
    image_url_of, lenient_track, lenient_tracks, lenient_tracks_of, search_items,
};
use crate::providers::{Track, TrackView, spotify_track_view, tracks_view};
use crate::text::{
    chars_of, clock_string, clock_text, decimal, find_in, find_char, push_decimal, push_str, str_equal,
    string_of_range, has_prefix, strip_prefix_or_keep,
};

verus! {

// ---------------------------------------------------------------------------
// Top artists
// ---------------------------------------------------------------------------

/// One entry of `/me/top/artists`, shown as a track-shaped tile.
pub open spec fn top_artist_entry(item: JsonValue) -> TrackView {
    let id = str_or(field(item, "id"@), ""@);
    spotify_track_view(
        image_url_of(field(item, "images"@)),
        id,
        str_or(field(item, "name"@), "Unknown"@),
        "Artist"@,
        id,
        ""@,
    )
}

/// The artists of a `/me/top/artists` response, in order.
pub fn parse_top_artists(json: &JsonValue) -> (artists: Vec<Track>)
    ensures
        tracks_view(artists@) == items_of(field(*json, "items"@)).map_values(
            |i: JsonValue| top_artist_entry(i),
        ),
{
    let mut artists: Vec<Track> = Vec::new();
    let nv = JsonValue::Null;
    let ghost items = items_of(field(*json, "items"@));
    if let Some(items) = field_of(json, "items", &nv).as_array() {
        let mut i: usize = 0;
        while i < items.len()
            invariant
                i <= items.len(),
                items@ == items_of(field(*json, "items"@)),
                artists@.len() == i,
                forall|j: int| 0 <= j < i ==> #[trigger] artists@[j]@ == top_artist_entry(items@[j]),
            decreases items.len() - i,
        {
            let item = &items[i];
            let nv2 = JsonValue::Null;
            let image_url = first_image_url(field_of(item, "images", &nv2));
            let id = string_or(field_of(item, "id", &nv2), "");
            let name = string_or(field_of(item, "name", &nv2), "Unknown");
            let artist_id = id.clone();
            artists.push(Track::spotify(image_url, id, name, "Artist".to_owned(), artist_id, "".to_owned()));
            i += 1;
        }
    }
    assert(tracks_view(artists@) =~= items.map_values(|i: JsonValue| top_artist_entry(i)));
    artists
}

// ---------------------------------------------------------------------------
// User playlists
// ---------------------------------------------------------------------------

/// A playlist is listed when the user owns it or it is collaborative.
pub open spec fn playlist_listed(item: JsonValue, my_id: Seq<char>) -> bool {
    str_or(field(field(item, "owner"@), "id"@), ""@) == my_id || as_bool(field(item, "collaborative"@))
        == Some(true)
}

/// A playlist tile: the owner's name stands in the artist field and the
/// snapshot id in the duration field.
pub open spec fn playlist_entry(item: JsonValue) -> TrackView {
    spotify_track_view(
        image_url_of(field(item, "images"@)),
        str_or(field(item, "id"@), ""@),
        str_or(field(item, "name"@), "Playlist"@),
        str_or(field(field(item, "owner"@), "display_name"@), "Spotify"@),
        ""@,
        str_or(field(item, "snapshot_id"@), ""@),
    )
}

/// The listed playlists among `items`, in order.
pub open spec fn listed_playlists(items: Seq<JsonValue>, my_id: Seq<char>) -> Seq<TrackView>
    decreases items.len(),
{
    if items.len() == 0 {
        Seq::empty()
    } else {
        let r = listed_playlists(items.drop_last(), my_id);
        if playlist_listed(items.last(), my_id) {
            r.push(playlist_entry(items.last()))
        } else {
            r
        }
    }
}

/// Appends the playlists of one `/me/playlists` page that `my_id` owns or
/// that are collaborative, in order.
fn append_listed_playlists(results: &mut Vec<Track>, json: &JsonValue, my_id: &str)
    ensures
        tracks_view(final(results)@) == tracks_view(old(results)@) + listed_playlists(
            items_of(field(*json, "items"@)),
            my_id@,
        ),
{
    let nv = JsonValue::Null;
    let ghost base = tracks_view(results@);
    let ghost all = items_of(field(*json, "items"@));
    if let Some(items) = field_of(json, "items", &nv).as_array() {
        let mut i: usize = 0;
        while i < items.len()
            invariant
                i <= items.len(),
                items@ == all,
                tracks_view(results@) == base + listed_playlists(all.take(i as int), my_id@),
            decreases items.len() - i,
        {
            assert(all.take(i as int + 1).drop_last() =~= all.take(i as int));
            assert(all.take(i as int + 1).last() == items@[i as int]);
            let item = &items[i];
            let nv2 = JsonValue::Null;
            let owner = field_of(item, "owner", &nv2);
            let owner_id = string_or(field_of(owner, "id", &nv2), "");
            let collaborative = match field_of(item, "collaborative", &nv2).as_bool() {
                Some(b) => b,
                None => false,
            };
            if str_equal(owner_id.as_str(), my_id) || collaborative {
                let img = first_image_url(field_of(item, "images", &nv2));
                let name = string_or(field_of(item, "name", &nv2), "Playlist");
                let id = string_or(field_of(item, "id", &nv2), "");
                let owner_name = string_or(field_of(owner, "display_name", &nv2), "Spotify");
                let snapshot = string_or(field_of(item, "snapshot_id", &nv2), "");
                let ghost before = tracks_view(results@);
                let t = Track::spotify(img, id, name, owner_name, "".to_owned(), snapshot);
                results.push(t);
                assert(tracks_view(results@) =~= before.push(playlist_entry(items@[i as int])));
                assert(base + listed_playlists(all.take(i as int + 1), my_id@) =~= (base
                    + listed_playlists(all.take(i as int), my_id@)).push(playlist_entry(items@[i as int])));
            }
            i += 1;
        }
        assert(all.take(items.len() as int) =~= all);
    } else {
        assert(all =~= Seq::<JsonValue>::empty());
        assert(listed_playlists(all, my_id@) =~= Seq::<TrackView>::empty());
        assert(base + Seq::<TrackView>::empty() =~= base);
    }
}

/// The playlists of a `/me/playlists` response that `my_id` owns or that
/// are collaborative, in order.
pub fn parse_user_playlists(json: &JsonValue, my_id: &str) -> (playlists: Vec<Track>)
    ensures
        tracks_view(playlists@) == listed_playlists(items_of(field(*json, "items"@)), my_id@),
{
    let mut results: Vec<Track> = Vec::new();
    assert(tracks_view(results@) =~= Seq::<TrackView>::empty());
    append_listed_playlists(&mut results, json, my_id);
    assert(Seq::<TrackView>::empty() + listed_playlists(items_of(field(*json, "items"@)), my_id@)
        =~= listed_playlists(items_of(field(*json, "items"@)), my_id@));
    results
}

/// The listed playlists of a sequence of `/me/playlists` pages, page after
/// page.
pub open spec fn listed_playlist_pages(pages: Seq<JsonValue>, my_id: Seq<char>) -> Seq<TrackView>
    decreases pages.len(),
{
    if pages.len() == 0 {
        Seq::empty()
    } else {
        listed_playlist_pages(pages.drop_last(), my_id) + listed_playlists(
            items_of(field(pages.last(), "items"@)),
            my_id,
        )
    }
}

/// All of the user's listed playlists from the first `/me/playlists` page
/// and the later pages numbered `0 .. n`, which may arrive in any order:
/// the pages are read in ascending page order and a number with no page is
/// skipped.
pub fn user_playlists_in_page_order(
    first: &JsonValue,
    later: &Vec<(u64, JsonValue)>,
    n: u64,
    my_id: &str,
) -> (playlists: Vec<Track>)
    ensures
        tracks_view(playlists@) == listed_playlist_pages(page_sequence(*first, later@, n as nat), my_id@),
{
    let mut results: Vec<Track> = Vec::new();
    assert(tracks_view(results@) =~= Seq::<TrackView>::empty());
    append_listed_playlists(&mut results, first, my_id);
    proof {
        let s0 = page_sequence(*first, later@, 0);
        assert(s0 =~= seq![*first]);
        assert(s0.drop_last() =~= Seq::<JsonValue>::empty());
        assert(s0.last() == *first);
        assert(listed_playlist_pages(s0, my_id@) == listed_playlist_pages(Seq::<JsonValue>::empty(), my_id@)
            + listed_playlists(items_of(field(*first, "items"@)), my_id@));
        assert(Seq::<TrackView>::empty() + listed_playlists(items_of(field(*first, "items"@)), my_id@)
            =~= listed_playlists(items_of(field(*first, "items"@)), my_id@));
    }
    let mut k: u64 = 0;
    while k < n
        invariant
            k <= n,
            tracks_view(results@) == listed_playlist_pages(page_sequence(*first, later@, k as nat), my_id@),
        decreases n - k,
    {
        let ghost before = page_sequence(*first, later@, k as nat);
        assert(page_sequence(*first, later@, k as nat + 1) =~= match page_at(later@, k) {
            Some(p) => before.push(p),
            None => before,
        });
        match find_page(later, k) {
            Some(i) => {
                proof {
                    let s = page_sequence(*first, later@, k as nat + 1);
                    assert(s.drop_last() =~= before);
                    assert(s.last() == later@[i as int].1);
                }
                append_listed_playlists(&mut results, &later[i].1, my_id);
            },
            None => {},
        }
        k += 1;
    }
    results
}

/// One page of the user's playlists: `.../me/playlists?offset=N&limit=M`.
pub fn user_playlists_url(offset: u64, limit: u64) -> (url: String)
    ensures
        url@ == "https://api.spotify.com/v1/me/playlists?offset="@ + decimal(offset as nat) + "&limit="@
            + decimal(limit as nat),
{
    let mut url = "https://api.spotify.com/v1/me/playlists?offset=".to_owned();
    push_decimal(&mut url, offset);
    push_str(&mut url, "&limit=");
    push_decimal(&mut url, limit);
    url
}

// ---------------------------------------------------------------------------
// Playlist contents
// ---------------------------------------------------------------------------

/// Name, owner and cover URL of a playlist object.
pub open spec fn playlist_meta(meta: JsonValue) -> (Seq<char>, Seq<char>, Seq<char>) {
    (
        str_or(field(meta, "name"@), "Selected Playlist"@),
        str_or(field(field(meta, "owner"@), "display_name"@), "Spotify"@),
        image_url_of(field(meta, "images"@)),
    )
}

/// Name, owner and cover URL of a playlist object, with defaults.
pub fn parse_playlist_meta(meta: &JsonValue) -> (r: (String, String, String))
    ensures
        (r.0@, r.1@, r.2@) == playlist_meta(*meta),
{
    let nv = JsonValue::Null;
    let name = string_or(field_of(meta, "name", &nv), "Selected Playlist");
    let owner = string_or(field_of(field_of(meta, "owner", &nv), "display_name", &nv), "Spotify");
    let cover = first_image_url(field_of(meta, "images", &nv));
    (name, owner, cover)
}

/// The track object inside a playlist item: its `track`, else its `item`,
/// else the item itself.
pub open spec fn item_track_node(item: JsonValue) -> JsonValue {
    if !is_null(field(item, "track"@)) {
        field(item, "track"@)
    } else if !is_null(field(item, "item"@)) {
        field(item, "item"@)
    } else {
        item
    }
}

/// A playlist item read as a track: items without a track id are skipped,
/// and a track without its own cover gets the playlist's.
pub open spec fn playlist_item_track(item: JsonValue, cover: Seq<char>) -> Option<TrackView> {
    let node = item_track_node(item);
    if is_null(node) || is_null(field(node, "id"@)) {
        None
    } else {
        match lenient_track(node) {
            Some(t) => if t.album_url.len() == 0 {
                Some(TrackView { album_url: cover, ..t })
            } else {
                Some(t)
            },
            None => None,
        }
    }
}

/// The tracks read from a list of playlist items, in order.
pub open spec fn playlist_items_tracks(items: Seq<JsonValue>, cover: Seq<char>) -> Seq<TrackView>
    decreases items.len(),
{
    if items.len() == 0 {
        Seq::empty()
    } else {
        let r = playlist_items_tracks(items.drop_last(), cover);
        match playlist_item_track(items.last(), cover) {
            Some(t) => r.push(t),
            None => r,
        }
    }
}

/// The tracks of a sequence of playlist pages, page after page.
pub open spec fn playlist_pages_tracks(pages: Seq<JsonValue>, cover: Seq<char>) -> Seq<TrackView>
    decreases pages.len(),
{
    if pages.len() == 0 {
        Seq::empty()
    } else {
        playlist_pages_tracks(pages.drop_last(), cover) + playlist_items_tracks(
            items_of(field(pages.last(), "items"@)),
            cover,
        )
    }
}

/// Every track node of a page has a duration that rounds without overflow.
pub open spec fn page_in_range(page: JsonValue) -> bool {
    forall|i: int|
        0 <= i < items_of(field(page, "items"@)).len() ==> duration_in_range(
            #[trigger] item_track_node(items_of(field(page, "items"@))[i]),
        )
}

/// Every track node of every page has a duration that rounds without overflow.
pub open spec fn pages_in_range(pages: Seq<JsonValue>) -> bool {
    forall|p: int| 0 <= p < pages.len() ==> page_in_range(#[trigger] pages[p])
}

/// Reads a playlist item as a track (see [`playlist_item_track`]).
pub fn parse_playlist_item(item: &JsonValue, cover: &str) -> (t: Option<Track>)
    requires
        duration_in_range(item_track_node(*item)),
    ensures
        match t {
            Some(tr) => playlist_item_track(*item, cover@) == Some(tr@),
            None => playlist_item_track(*item, cover@) is None,
        },
{
    let nv = JsonValue::Null;
    let track_field = field_of(item, "track", &nv);
    let item_field = field_of(item, "item", &nv);
    let node = if !track_field.is_null() {
        track_field
    } else if !item_field.is_null() {
        item_field
    } else {
        item
    };
    if node.is_null() || field_of(node, "id", &nv).is_null() {
        return None;
    }
    match SpotifyParser::parse_track_lenient(node) {
        Some(t) => {
            if t.album_url.as_str().is_empty() {
                let mut t = t;
                t.album_url = cover.to_owned();
                Some(t)
            } else {
                Some(t)
            }
        },
        None => None,
    }
}

/// Appends the tracks of one playlist page to `tracks`.
fn append_page_tracks(tracks: &mut Vec<Track>, page: &JsonValue, cover: &str)
    requires
        page_in_range(*page),
    ensures
        tracks_view(final(tracks)@) == tracks_view(old(tracks)@) + playlist_items_tracks(
            items_of(field(*page, "items"@)),
            cover@,
        ),
{
    let ghost base = tracks_view(tracks@);
    let ghost all = items_of(field(*page, "items"@));
    let nv = JsonValue::Null;
    if let Some(items) = field_of(page, "items", &nv).as_array() {
        let mut i: usize = 0;
        while i < items.len()
            invariant
                i <= items.len(),
                page_in_range(*page),
                items@ == all,
                all == items_of(field(*page, "items"@)),
                tracks_view(tracks@) == base + playlist_items_tracks(items@.take(i as int), cover@),
            decreases items.len() - i,
        {
            assert(items@.take(i as int + 1).drop_last() =~= items@.take(i as int));
            assert(items@.take(i as int + 1).last() == items@[i as int]);
            assert(duration_in_range(item_track_node(all[i as int])));
            match parse_playlist_item(&items[i], cover) {
                Some(t) => {
                    let ghost before = tracks_view(tracks@);
                    tracks.push(t);
                    assert(tracks_view(tracks@) =~= before.push(t@));
                    assert(base + playlist_items_tracks(items@.take(i as int + 1), cover@) =~= (base
                        + playlist_items_tracks(items@.take(i as int), cover@)).push(t@));
                },
                None => {},
            }
            i += 1;
        }
        assert(items@.take(items.len() as int) =~= items@);
    } else {
        assert(all =~= Seq::<JsonValue>::empty());
        assert(playlist_items_tracks(all, cover@) =~= Seq::<TrackView>::empty());
        assert(base + Seq::<TrackView>::empty() =~= base);
    }
}

/// The tracks of playlist pages, page after page.
pub fn playlist_tracks(pages: &Vec<JsonValue>, cover: &str) -> (tracks: Vec<Track>)
    requires
        pages_in_range(pages@),
    ensures
        tracks_view(tracks@) == playlist_pages_tracks(pages@, cover@),
{
    let mut tracks: Vec<Track> = Vec::new();
    let mut p: usize = 0;
    while p < pages.len()
        invariant
            p <= pages.len(),
            pages_in_range(pages@),
            tracks_view(tracks@) == playlist_pages_tracks(pages@.take(p as int), cover@),
        decreases pages.len() - p,
    {
        assert(pages@.take(p as int + 1).drop_last() =~= pages@.take(p as int));
        assert(pages@.take(p as int + 1).last() == pages@[p as int]);
        assert(page_in_range(pages@[p as int]));
        append_page_tracks(&mut tracks, &pages[p], cover);
        p += 1;
    }
    assert(pages@.take(pages.len() as int) =~= pages@);
    tracks
}

/// The page stored under page number `k` among pages that arrived in any
/// order: the first entry with that number.
pub open spec fn page_at(later: Seq<(u64, JsonValue)>, k: u64) -> Option<JsonValue>
    decreases later.len(),
{
    if later.len() == 0 {
        None
    } else {
        match page_at(later.drop_last(), k) {
            Some(p) => Some(p),
            None => if later.last().0 == k {
                Some(later.last().1)
            } else {
                None
            },
        }
    }
}

/// The pages numbered `0 .. n` in ascending order; numbers with no page
/// (a fetch that failed) are skipped.
pub open spec fn ordered_pages(later: Seq<(u64, JsonValue)>, n: nat) -> Seq<JsonValue>
    decreases n,
{
    if n == 0 {
        Seq::empty()
    } else {
        let r = ordered_pages(later, (n - 1) as nat);
        match page_at(later, (n - 1) as u64) {
            Some(p) => r.push(p),
            None => r,
        }
    }
}

/// The first page followed by the later pages `0 .. n` in page order.
pub open spec fn page_sequence(first: JsonValue, later: Seq<(u64, JsonValue)>, n: nat) -> Seq<
    JsonValue,
> {
    seq![first] + ordered_pages(later, n)
}

proof fn lemma_page_at_prefix(s: Seq<(u64, JsonValue)>, u: Seq<(u64, JsonValue)>, k: u64)
    requires
        s.len() <= u.len(),
        s == u.take(s.len() as int),
        page_at(s, k) is Some,
    ensures
        page_at(u, k) == page_at(s, k),
    decreases u.len(),
{
    if u.len() > s.len() {
        assert(s == u.drop_last().take(s.len() as int));
        lemma_page_at_prefix(s, u.drop_last(), k);
    } else {
        assert(s =~= u);
    }
}

/// Where the page numbered `k` stands in `later`, if it arrived.
fn find_page(later: &Vec<(u64, JsonValue)>, k: u64) -> (r: Option<usize>)
    ensures
        match r {
            Some(i) => i < later@.len() && page_at(later@, k) == Some(later@[i as int].1),
            None => page_at(later@, k) is None,
        },
{
    let mut i: usize = 0;
    while i < later.len()
        invariant
            i <= later.len(),
            page_at(later@.take(i as int), k) is None,
        decreases later.len() - i,
    {
        assert(later@.take(i as int + 1).drop_last() =~= later@.take(i as int));
        assert(later@.take(i as int + 1).last() == later@[i as int]);
        if later[i].0 == k {
            proof {
                lemma_page_at_prefix(later@.take(i as int + 1), later@, k);
            }
            return Some(i);
        }
        i += 1;
    }
    assert(later@.take(later.len() as int) =~= later@);
    None
}

/// Whether every page of the sequence has durations that round without
/// overflow (what [`playlist_tracks_in_page_order`] needs).
pub fn page_sequence_fits(first: &JsonValue, later: &Vec<(u64, JsonValue)>, n: u64) -> (ok: bool)
    ensures
        ok == pages_in_range(page_sequence(*first, later@, n as nat)),
{
    let ghost seqs = page_sequence(*first, later@, n as nat);
    if !page_fits(first) {
        assert(seqs[0] == *first);
        return false;
    }
    let mut k: u64 = 0;
    while k < n
        invariant
            k <= n,
            page_in_range(*first),
            pages_in_range(page_sequence(*first, later@, k as nat)),
        decreases n - k,
    {
        let ghost before = page_sequence(*first, later@, k as nat);
        assert(page_sequence(*first, later@, k as nat + 1) =~= match page_at(later@, k) {
            Some(p) => before.push(p),
            None => before,
        });
        match find_page(later, k) {
            Some(i) => {
                if !page_fits(&later[i].1) {
                    proof {
                        lemma_page_sequence_grows(*first, later@, k as nat + 1, n as nat);
                        let s = page_sequence(*first, later@, k as nat + 1);
                        assert(s[s.len() - 1] == later@[i as int].1);
                        assert(page_sequence(*first, later@, n as nat)[s.len() - 1] == later@[i as int].1);
                    }
                    return false;
                }
            },
            None => {},
        }
        k += 1;
    }
    true
}

proof fn lemma_page_sequence_grows(first: JsonValue, later: Seq<(u64, JsonValue)>, m: nat, n: nat)
    requires
        m <= n,
    ensures
        page_sequence(first, later, m) == page_sequence(first, later, n).take(
            page_sequence(first, later, m).len() as int,
        ),
        page_sequence(first, later, m).len() <= page_sequence(first, later, n).len(),
    decreases n - m,
{
    if m < n {
        lemma_page_sequence_grows(first, later, m, (n - 1) as nat);
        let a = page_sequence(first, later, (n - 1) as nat);
        let b = page_sequence(first, later, n);
        assert(b =~= match page_at(later, (n - 1) as u64) {
            Some(p) => a.push(p),
            None => a,
        });
        assert(a =~= b.take(a.len() as int));
    }
}

/// The tracks of a playlist from its first page and the later pages
/// numbered `0 .. n`, which may arrive in any order: the pages are read in
/// ascending page order and a number with no page is skipped.
pub fn playlist_tracks_in_page_order(
    first: &JsonValue,
    later: &Vec<(u64, JsonValue)>,
    n: u64,
    cover: &str,
) -> (tracks: Vec<Track>)
    requires
        pages_in_range(page_sequence(*first, later@, n as nat)),
    ensures
        tracks_view(tracks@) == playlist_pages_tracks(page_sequence(*first, later@, n as nat), cover@),
{
    let ghost all = page_sequence(*first, later@, n as nat);
    proof {
        lemma_page_sequence_grows(*first, later@, 0, n as nat);
        assert(page_sequence(*first, later@, 0) =~= seq![*first]);
        assert(all[0] == *first);
        assert(page_in_range(all[0]));
    }
    let mut tracks: Vec<Track> = Vec::new();
    assert(tracks_view(tracks@) =~= Seq::<TrackView>::empty());
    append_page_tracks(&mut tracks, first, cover);
    proof {
        let s0 = page_sequence(*first, later@, 0);
        assert(s0.drop_last() =~= Seq::<JsonValue>::empty());
        assert(s0.last() == *first);
        assert(playlist_pages_tracks(s0, cover@) == playlist_pages_tracks(Seq::<JsonValue>::empty(), cover@)
            + playlist_items_tracks(items_of(field(*first, "items"@)), cover@));
        assert(Seq::<TrackView>::empty() + playlist_items_tracks(items_of(field(*first, "items"@)), cover@)
            =~= playlist_items_tracks(items_of(field(*first, "items"@)), cover@));
    }
    let mut k: u64 = 0;
    while k < n
        invariant
            k <= n,
            all == page_sequence(*first, later@, n as nat),
            pages_in_range(all),
            tracks_view(tracks@) == playlist_pages_tracks(page_sequence(*first, later@, k as nat), cover@),
        decreases n - k,
    {
        let ghost before = page_sequence(*first, later@, k as nat);
        assert(page_sequence(*first, later@, k as nat + 1) =~= match page_at(later@, k) {
            Some(p) => before.push(p),
            None => before,
        });
        match find_page(later, k) {
            Some(i) => {
                proof {
                    lemma_page_sequence_grows(*first, later@, k as nat + 1, n as nat);
                    let s = page_sequence(*first, later@, k as nat + 1);
                    assert(s[s.len() - 1] == later@[i as int].1);
                    assert(all[s.len() - 1] == later@[i as int].1);
                    assert(s.drop_last() =~= before);
                }
                append_page_tracks(&mut tracks, &later[i].1, cover);
            },
            None => {},
        }
        k += 1;
    }
    tracks
}

/// How the rest of a playlist is fetched after its first page.
pub struct PagePlan {
    /// Items per page.
    pub per_page: u64,
    /// Offsets of the pages after the first, in order.
    pub offsets: Vec<u64>,
}

/// Items per page: the page's `limit`, 50 when missing or zero.
pub open spec fn page_size_of(first_page: JsonValue) -> u64 {
    match crate::json::as_u64(field(first_page, "limit"@)) {
        Some(l) => if l == 0 {
            50
        } else {
            l
        },
        None => 50,
    }
}

/// Total number of items the first page announces (0 when missing).
pub open spec fn total_of(first_page: JsonValue) -> u64 {
    match crate::json::as_u64(field(first_page, "total"@)) {
        Some(t) => t,
        None => 0,
    }
}

/// Reads the paging of a playlist's first item page: when `total` exceeds
/// one page, the offsets `k * per_page` of the remaining pages
/// (`k = 1 .. ceil(total / per_page)`), otherwise none.
pub fn plan_playlist_pages(first_page: &JsonValue) -> (plan: PagePlan)
    ensures
        plan.per_page == page_size_of(*first_page),
        plan.per_page > 0,
        total_of(*first_page) <= plan.per_page ==> plan.offsets@.len() == 0,
        total_of(*first_page) > plan.per_page ==> plan.offsets@.len() == (total_of(*first_page) - 1)
            / (plan.per_page as int),
        forall|k: int| 0 <= k < plan.offsets@.len() ==> #[trigger] plan.offsets@[k] == (k + 1)
            * plan.per_page,
        forall|k: int| 0 <= k < plan.offsets@.len() ==> #[trigger] plan.offsets@[k] < total_of(
            *first_page,
        ),
{
    let nv = JsonValue::Null;
    let total: u64 = match field_of(first_page, "total", &nv).as_u64() {
        Some(t) => t,
        None => 0,
    };
    let limit: u64 = match field_of(first_page, "limit", &nv).as_u64() {
        Some(l) => l,
        None => 50,
    };
    let per_page: u64 = if limit == 0 {
        50
    } else {
        limit
    };
    let mut offsets: Vec<u64> = Vec::new();
    if total > per_page {
        let num_pages: u64 = (total - 1) / per_page + 1;
        let mut page: u64 = 1;
        while page < num_pages
            invariant
                1 <= page <= num_pages,
                num_pages == (total - 1) / (per_page as int) + 1,
                per_page > 0,
                total > per_page,
                offsets@.len() == page - 1,
                forall|k: int| 0 <= k < offsets@.len() ==> #[trigger] offsets@[k] == (k + 1) * per_page,
                forall|k: int| 0 <= k < offsets@.len() ==> #[trigger] offsets@[k] < total,
            decreases num_pages - page,
        {
            assert(page * per_page < total) by (nonlinear_arith)
                requires
                    page < num_pages,
                    num_pages == (total - 1) / (per_page as int) + 1,
                    per_page > 0,
            ;
            offsets.push(page * per_page);
            page += 1;
        }
    }
    PagePlan { per_page, offsets }
}

// ---------------------------------------------------------------------------
// Artist page
// ---------------------------------------------------------------------------

/// The response is an API error object (`{"error": {...}}`).
pub fn is_api_error(json: &JsonValue) -> (r: bool)
    ensures
        r == is_object(field(*json, "error"@)),
{
    let nv = JsonValue::Null;
    field_of(json, "error", &nv).is_object()
}

/// Name and photo URL of an artist object, with defaults.
pub fn parse_artist_header(artist: &JsonValue) -> (r: (String, String))
    ensures
        r.0@ == str_or(field(*artist, "name"@), "Unknown Artist"@),
        r.1@ == image_url_of(field(*artist, "images"@)),
{
    let nv = JsonValue::Null;
    (
        string_or(field_of(artist, "name", &nv), "Unknown Artist"),
        first_image_url(field_of(artist, "images", &nv)),
    )
}

/// A track of a search response as the artist page shows it: cover of its
/// album, first artist, duration truncated to seconds.
pub open spec fn catalog_track(item: JsonValue, cover: Seq<char>) -> TrackView {
    let artist0 = elem(field(item, "artists"@), 0);
    spotify_track_view(
        cover,
        str_or(field(item, "id"@), ""@),
        str_or(field(item, "name"@), "Unknown"@),
        str_or(field(artist0, "name"@), ""@),
        str_or(field(artist0, "id"@), ""@),
        clock_text((duration_ms_of(item) / 1000) as nat),
    )
}

/// The items with a non-null id, each read as a catalog track whose cover
/// is `cover` if given, else the item's own album cover.
pub open spec fn catalog_tracks(items: Seq<JsonValue>, cover: Option<Seq<char>>) -> Seq<TrackView>
    decreases items.len(),
{
    if items.len() == 0 {
        Seq::empty()
    } else {
        let r = catalog_tracks(items.drop_last(), cover);
        let item = items.last();
        if is_null(field(item, "id"@)) {
            r
        } else {
            let c = match cover {
                Some(c) => c,
                None => image_url_of(field(field(item, "album"@), "images"@)),
            };
            r.push(catalog_track(item, c))
        }
    }
}

fn catalog_tracks_exec(items: &Vec<JsonValue>, cover: &Option<String>) -> (ts: Vec<Track>)
    ensures
        tracks_view(ts@) == catalog_tracks(
            items@,
            match cover {
                Some(c) => Some(c@),
                None => None,
            },
        ),
{
    let ghost cv = match cover {
        Some(c) => Some(c@),
        None => None,
    };
    let mut ts: Vec<Track> = Vec::new();
    let mut i: usize = 0;
    while i < items.len()
        invariant
            i <= items.len(),
            cv == match cover {
                Some(c) => Some(c@),
                None => None::<Seq<char>>,
            },
            tracks_view(ts@) == catalog_tracks(items@.take(i as int), cv),
        decreases items.len() - i,
    {
        assert(items@.take(i as int + 1).drop_last() =~= items@.take(i as int));
        assert(items@.take(i as int + 1).last() == items@[i as int]);
        let item = &items[i];
        let nv = JsonValue::Null;
        if !field_of(item, "id", &nv).is_null() {
            let t_cover = match cover {
                Some(c) => c.clone(),
                None => first_image_url(field_of(field_of(item, "album", &nv), "images", &nv)),
            };
            let artist0 = elem_of(field_of(item, "artists", &nv), 0, &nv);
            let duration_ms: u64 = match field_of(item, "duration_ms", &nv).as_u64() {
                Some(m) => m,
                None => 0,
            };
            let secs = duration_ms / 1000;
            let t = Track::spotify(
                t_cover,
                string_or(field_of(item, "id", &nv), ""),
                string_or(field_of(item, "name", &nv), "Unknown"),
                string_or(field_of(artist0, "name", &nv), ""),
                string_or(field_of(artist0, "id", &nv), ""),
                clock_string(secs),
            );
            let ghost before = tracks_view(ts@);
            ts.push(t);
            assert(tracks_view(ts@) =~= before.push(t@));
        }
        i += 1;
    }
    assert(items@.take(items.len() as int) =~= items@);
    ts
}

/// The artist's top tracks from a track search response (items without an
/// id are skipped).
pub fn parse_artist_top_tracks(search: &JsonValue) -> (ts: Vec<Track>)
    ensures
        tracks_view(ts@) == catalog_tracks(search_items(*search), None),
{
    let nv = JsonValue::Null;
    match field_of(field_of(search, "tracks", &nv), "items", &nv).as_array() {
        Some(items) => catalog_tracks_exec(items, &None),
        None => {
            let ts: Vec<Track> = Vec::new();
            assert(tracks_view(ts@) =~= Seq::<TrackView>::empty());
            ts
        },
    }
}

/// Lexicographic order on texts by character code (which for UTF-8 text is
/// the byte order `str::cmp` uses).
pub open spec fn text_lt(a: Seq<char>, b: Seq<char>) -> bool
    decreases a.len(),
{
    if a.len() == 0 {
        b.len() > 0
    } else if b.len() == 0 {
        false
    } else if a[0] != b[0] {
        (a[0] as u32) < (b[0] as u32)
    } else {
        text_lt(a.drop_first(), b.drop_first())
    }
}

/// `a < b` in text order.
pub fn text_less(a: &str, b: &str) -> (r: bool)
    ensures
        r == text_lt(a@, b@),
{
    let va = chars_of(a);
    let vb = chars_of(b);
    let mut i: usize = 0;
    assert(va@.skip(0) =~= va@);
    assert(vb@.skip(0) =~= vb@);
    while i < va.len() && i < vb.len() && va[i] == vb[i]
        invariant
            i <= va.len(),
            i <= vb.len(),
            text_lt(va@, vb@) == text_lt(va@.skip(i as int), vb@.skip(i as int)),
        decreases va.len() - i,
    {
        assert(va@.skip(i as int).drop_first() =~= va@.skip(i as int + 1));
        assert(vb@.skip(i as int).drop_first() =~= vb@.skip(i as int + 1));
        i += 1;
    }
    if i == va.len() {
        assert(va@.skip(i as int).len() == 0);
        i < vb.len()
    } else if i == vb.len() {
        false
    } else {
        assert(va@.skip(i as int)[0] == va@[i as int]);
        assert(vb@.skip(i as int)[0] == vb@[i as int]);
        (va[i] as u32) < (vb[i] as u32)
    }
}

/// The release date an album item is ordered by (`""` when missing).
pub open spec fn release_key(item: JsonValue) -> Seq<char> {
    str_or(field(item, "release_date"@), ""@)
}

/// Where `x` goes among `order` (indices into `items`, newest first): after
/// every entry released at the same time or later.
pub open spec fn insert_position(items: Seq<JsonValue>, order: Seq<int>, x: int) -> int
    decreases order.len(),
{
    if order.len() == 0 {
        0
    } else if text_lt(release_key(items[order.last()]), release_key(items[x])) {
        insert_position(items, order.drop_last(), x)
    } else {
        order.len() as int
    }
}

/// `items` ordered newest release first, keeping the given order among
/// equal dates (the stable sort `sort_by(|a, b| b.cmp(a))` on the dates),
/// as a list of indices.
pub open spec fn newest_first(items: Seq<JsonValue>, n: nat) -> Seq<int>
    decreases n,
{
    if n == 0 {
        Seq::empty()
    } else {
        let order = newest_first(items, (n - 1) as nat);
        let p = insert_position(items, order, n - 1);
        order.insert(p, n - 1)
    }
}

/// An album item as a discography tile: release year in the artist field,
/// album type in the duration field.
pub open spec fn album_entry(item: JsonValue) -> TrackView {
    let year = match as_str(field(item, "release_date"@)) {
        Some(d) => match find_char(d, '-') {
            Some(k) => d.take(k),
            None => d,
        },
        None => ""@,
    };
    spotify_track_view(
        image_url_of(field(item, "images"@)),
        str_or(field(item, "id"@), ""@),
        str_or(field(item, "name"@), "Unknown"@),
        year,
        ""@,
        str_or(field(item, "album_type"@), "album"@),
    )
}

/// The album tiles for `items` taken in `order`, skipping items without an id.
pub open spec fn album_entries(items: Seq<JsonValue>, order: Seq<int>) -> Seq<TrackView>
    decreases order.len(),
{
    if order.len() == 0 {
        Seq::empty()
    } else {
        let r = album_entries(items, order.drop_last());
        let item = items[order.last()];
        if is_null(field(item, "id"@)) {
            r
        } else {
            r.push(album_entry(item))
        }
    }
}

proof fn lemma_insert_position_bounds(items: Seq<JsonValue>, order: Seq<int>, x: int)
    ensures
        0 <= insert_position(items, order, x) <= order.len(),
    decreases order.len(),
{
    if order.len() > 0 {
        lemma_insert_position_bounds(items, order.drop_last(), x);
    }
}

proof fn lemma_newest_first_indices(items: Seq<JsonValue>, n: nat)
    ensures
        newest_first(items, n).len() == n,
        forall|k: int| 0 <= k < n ==> 0 <= #[trigger] newest_first(items, n)[k] < n,
    decreases n,
{
    if n > 0 {
        lemma_newest_first_indices(items, (n - 1) as nat);
        let order = newest_first(items, (n - 1) as nat);
        lemma_insert_position_bounds(items, order, n - 1);
        let p = insert_position(items, order, n - 1);
        assert forall|k: int| 0 <= k < n implies 0 <= #[trigger] newest_first(items, n)[k] < n by {
            if k < p {
                assert(newest_first(items, n)[k] == order[k]);
            } else if k > p {
                assert(newest_first(items, n)[k] == order[k - 1]);
            }
        }
    }
}


// ---------------------------------------------------------------------------
// Order of the discography
// ---------------------------------------------------------------------------

proof fn lemma_text_lt_irreflexive(a: Seq<char>)
    ensures
        !text_lt(a, a),
    decreases a.len(),
{
    if a.len() > 0 {
        lemma_text_lt_irreflexive(a.drop_first());
    }
}

proof fn lemma_text_lt_transitive(a: Seq<char>, b: Seq<char>, c: Seq<char>)
    requires
        text_lt(a, b),
        text_lt(b, c),
    ensures
        text_lt(a, c),
    decreases a.len(),
{
    if a.len() > 0 && b.len() > 0 && c.len() > 0 && a[0] == b[0] && b[0] == c[0] {
        lemma_text_lt_transitive(a.drop_first(), b.drop_first(), c.drop_first());
    }
}

proof fn lemma_text_lt_total(a: Seq<char>, b: Seq<char>)
    requires
        a != b,
    ensures
        text_lt(a, b) || text_lt(b, a),
    decreases a.len(),
{
    if a.len() == 0 && b.len() == 0 {
        assert(a =~= b);
    } else if a.len() > 0 && b.len() > 0 {
        if a[0] == b[0] {
            if a.drop_first() == b.drop_first() {
                assert(a =~= seq![a[0]] + a.drop_first());
                assert(b =~= seq![b[0]] + b.drop_first());
            }
            lemma_text_lt_total(a.drop_first(), b.drop_first());
        } else {
            let c: char = a[0];
            let d: char = b[0];
            if (c as u32) == (d as u32) {
                vstd::utf8::char_u32_cast(c, c as u32);
                vstd::utf8::char_u32_cast(d, c as u32);
            }
        }
    }
}

/// "Not earlier than" is transitive.
proof fn lemma_not_lt_transitive(a: Seq<char>, b: Seq<char>, c: Seq<char>)
    requires
        !text_lt(a, b),
        !text_lt(b, c),
    ensures
        !text_lt(a, c),
{
    if text_lt(a, c) {
        if a == b {
        } else {
            lemma_text_lt_total(a, b);
            lemma_text_lt_transitive(b, a, c);
        }
    }
}

/// Entries at or after the insert position are strictly earlier than the
/// inserted item; the entry just before it is not.
proof fn lemma_insert_position_split(items: Seq<JsonValue>, order: Seq<int>, x: int)
    ensures
        forall|j: int|
            insert_position(items, order, x) <= j < order.len() ==> text_lt(
                release_key(items[#[trigger] order[j]]),
                release_key(items[x]),
            ),
        insert_position(items, order, x) > 0 ==> !text_lt(
            release_key(items[order[insert_position(items, order, x) - 1]]),
            release_key(items[x]),
        ),
    decreases order.len(),
{
    if order.len() > 0 {
        let prev = order.drop_last();
        lemma_insert_position_split(items, prev, x);
        lemma_insert_position_bounds(items, prev, x);
        let p = insert_position(items, order, x);
        if text_lt(release_key(items[order.last()]), release_key(items[x])) {
            assert(p == insert_position(items, prev, x));
            assert forall|j: int| p <= j < order.len() implies text_lt(
                release_key(items[#[trigger] order[j]]),
                release_key(items[x]),
            ) by {
                if j < order.len() - 1 {
                    assert(prev[j] == order[j]);
                }
            }
            if p > 0 {
                assert(prev[p - 1] == order[p - 1]);
            }
        } else {
            assert(p == order.len());
        }
    }
}

/// The discography order never puts an album before one released later:
/// along the order the release dates never increase.
pub proof fn law_albums_newest_first(items: Seq<JsonValue>, n: nat)
    ensures
        forall|i: int, j: int|
            0 <= i < j < n ==> !text_lt(
                release_key(items[#[trigger] newest_first(items, n)[i]]),
                release_key(items[#[trigger] newest_first(items, n)[j]]),
            ),
    decreases n,
{
    if n > 0 {
        law_albums_newest_first(items, (n - 1) as nat);
        lemma_newest_first_indices(items, (n - 1) as nat);
        let order = newest_first(items, (n - 1) as nat);
        let x = n - 1;
        let p = insert_position(items, order, x);
        lemma_insert_position_bounds(items, order, x);
        lemma_insert_position_split(items, order, x);
        let r = order.insert(p, x);
        assert(r == newest_first(items, n));
        let key = |k: int| release_key(items[k]);
        assert forall|i: int, j: int| 0 <= i < j < n implies !text_lt(
            release_key(items[#[trigger] r[i]]),
            release_key(items[#[trigger] r[j]]),
        ) by {
            if j < p {
                assert(r[i] == order[i] && r[j] == order[j]);
            } else if j == p {
                assert(r[j] == x);
                assert(r[i] == order[i]);
                if i < p - 1 {
                    assert(!text_lt(key(order[i]), key(order[p - 1])));
                    lemma_not_lt_transitive(key(order[i]), key(order[p - 1]), key(x));
                }
            } else if i < p {
                assert(r[i] == order[i] && r[j] == order[j - 1]);
            } else if i == p {
                assert(r[i] == x && r[j] == order[j - 1]);
                assert(text_lt(key(order[j - 1]), key(x)));
                if text_lt(key(x), key(order[j - 1])) {
                    lemma_text_lt_transitive(key(x), key(order[j - 1]), key(x));
                    lemma_text_lt_irreflexive(key(x));
                }
            } else {
                assert(r[i] == order[i - 1] && r[j] == order[j - 1]);
            }
        }
    }
}

/// The position for item `x` among the already ordered indices.
fn find_insert_position(items: &Vec<JsonValue>, order: &Vec<usize>, x: usize) -> (p: usize)
    requires
        x < items.len(),
        forall|k: int| 0 <= k < order@.len() ==> #[trigger] order@[k] < items.len(),
    ensures
        p == insert_position(items@, order@.map_values(|i: usize| i as int), x as int),
{
    let ghost ord = order@.map_values(|i: usize| i as int);
    let nv = JsonValue::Null;
    let key = match field_of(&items[x], "release_date", &nv).as_str() {
        Some(s) => s,
        None => "",
    };
    let mut p: usize = order.len();
    assert(ord.take(p as int) =~= ord);
    while p > 0
        invariant
            p <= order.len(),
            x < items.len(),
            ord == order@.map_values(|i: usize| i as int),
            forall|k: int| 0 <= k < order@.len() ==> #[trigger] order@[k] < items.len(),
            key@ == release_key(items@[x as int]),
            insert_position(items@, ord, x as int) == insert_position(items@, ord.take(p as int), x as int),
        decreases p,
    {
        let nv2 = JsonValue::Null;
        let other = match field_of(&items[order[p - 1]], "release_date", &nv2).as_str() {
            Some(s) => s,
            None => "",
        };
        assert(ord.take(p as int).drop_last() =~= ord.take(p as int - 1));
        assert(ord.take(p as int).last() == order@[p - 1] as int);
        if text_less(other, key) {
            p -= 1;
        } else {
            return p;
        }
    }
    p
}

/// The discography of an artist albums response: newest release first
/// (stable among equal dates), items without an id skipped.
pub fn parse_artist_albums(albums: &JsonValue) -> (ts: Vec<Track>)
    ensures
        ({
            let items = items_of(field(*albums, "items"@));
            tracks_view(ts@) == album_entries(items, newest_first(items, items.len()))
        }),
{
    let nv = JsonValue::Null;
    let ghost all = items_of(field(*albums, "items"@));
    let items = match field_of(albums, "items", &nv).as_array() {
        Some(a) => a,
        None => {
            let ts: Vec<Track> = Vec::new();
            assert(newest_first(all, 0) =~= Seq::<int>::empty());
            assert(tracks_view(ts@) =~= Seq::<TrackView>::empty());
            return ts;
        },
    };
    let mut order: Vec<usize> = Vec::new();
    let mut n: usize = 0;
    while n < items.len()
        invariant
            n <= items.len(),
            items@ == all,
            order@.map_values(|i: usize| i as int) == newest_first(all, n as nat),
            forall|k: int| 0 <= k < order@.len() ==> #[trigger] order@[k] < n,
            order@.len() == n,
        decreases items.len() - n,
    {
        proof {
            lemma_newest_first_indices(all, n as nat);
        }
        let p = find_insert_position(items, &order, n);
        proof {
            lemma_insert_position_bounds(all, order@.map_values(|i: usize| i as int), n as int);
        }
        let ghost old_order = order@;
        order.insert(p, n);
        assert(order@.map_values(|i: usize| i as int) =~= newest_first(all, (n + 1) as nat));
        assert forall|k: int| 0 <= k < order@.len() implies #[trigger] order@[k] < n + 1 by {
            if k < p {
                assert(order@[k] == old_order[k]);
            } else if k > p {
                assert(order@[k] == old_order[k - 1]);
            }
        }
        n += 1;
    }
    let ghost ord = order@.map_values(|i: usize| i as int);
    let mut ts: Vec<Track> = Vec::new();
    let mut j: usize = 0;
    while j < order.len()
        invariant
            j <= order.len(),
            items@ == all,
            ord == order@.map_values(|i: usize| i as int),
            forall|k: int| 0 <= k < order@.len() ==> #[trigger] order@[k] < items.len(),
            tracks_view(ts@) == album_entries(all, ord.take(j as int)),
        decreases order.len() - j,
    {
        assert(ord.take(j as int + 1).drop_last() =~= ord.take(j as int));
        assert(ord.take(j as int + 1).last() == order@[j as int] as int);
        let item = &items[order[j]];
        let nv2 = JsonValue::Null;
        if !field_of(item, "id", &nv2).is_null() {
            let cover = first_image_url(field_of(item, "images", &nv2));
            let year = match field_of(item, "release_date", &nv2).as_str() {
                Some(d) => {
                    let dv = chars_of(d);
                    proof {
                        crate::text::lemma_find_some_is_first(dv@, '-');
                    }
                    match find_in(&dv, '-') {
                        Some(k) => string_of_range(&dv, 0, k),
                        None => d.to_owned(),
                    }
                },
                None => "".to_owned(),
            };
            let t = Track::spotify(
                cover,
                string_or(field_of(item, "id", &nv2), ""),
                string_or(field_of(item, "name", &nv2), "Unknown"),
                year,
                "".to_owned(),
                string_or(field_of(item, "album_type", &nv2), "album"),
            );
            let ghost before = tracks_view(ts@);
            ts.push(t);
            assert(t@ == album_entry(all[order@[j as int] as int])) by {
                let d = as_str(field(all[order@[j as int] as int], "release_date"@));
                if let Some(dd) = d {
                    assert(dd.take(dd.len() as int) =~= dd);
                    match find_char(dd, '-') {
                        Some(k) => {
                            crate::text::lemma_find_some_is_first(dd, '-');
                            assert(dd.subrange(0, k) =~= dd.take(k));
                        },
                        None => {},
                    }
                }
            }
            assert(tracks_view(ts@) =~= before.push(t@));
        }
        j += 1;
    }
    assert(ord.take(order.len() as int) =~= ord);
    ts
}

// ---------------------------------------------------------------------------
// Recently played, albums, search
// ---------------------------------------------------------------------------

/// `s` without tracks whose id occurred earlier.
pub open spec fn first_of_each_id(s: Seq<TrackView>) -> Seq<TrackView>
    decreases s.len(),
{
    if s.len() == 0 {
        Seq::empty()
    } else {
        let r = first_of_each_id(s.drop_last());
        if (exists|k: int| 0 <= k < r.len() && r[k].id == s.last().id) {
            r
        } else {
            r.push(s.last())
        }
    }
}

/// The `track` objects of a recently-played response's items.
pub open spec fn played_nodes(json: JsonValue) -> Seq<JsonValue> {
    items_of(field(json, "items"@)).map_values(|i: JsonValue| field(i, "track"@))
}

/// At most `n` first elements.
pub open spec fn at_most<T>(s: Seq<T>, n: nat) -> Seq<T> {
    if s.len() <= n {
        s
    } else {
        s.take(n as int)
    }
}

/// Recently played tracks: each item's `track` read leniently, repeated
/// tracks dropped (the first play kept), at most ten.
pub fn parse_recently_played(json: &JsonValue) -> (ts: Vec<Track>)
    requires
        durations_in_range(played_nodes(*json)),
    ensures
        tracks_view(ts@) == at_most(first_of_each_id(lenient_tracks(played_nodes(*json))), 10),
        ts@.len() <= 10,
        distinct_ids(tracks_view(ts@)),
        only_first_plays(lenient_tracks(played_nodes(*json)), tracks_view(ts@)),
        in_first_play_order(lenient_tracks(played_nodes(*json)), tracks_view(ts@)),
        ts@.len() < 10 ==> every_id_kept(lenient_tracks(played_nodes(*json)), tracks_view(ts@)),
{
    let nv = JsonValue::Null;
    let ghost nodes = played_nodes(*json);
    let mut tracks: Vec<Track> = Vec::new();
    if let Some(items) = field_of(json, "items", &nv).as_array() {
        let mut i: usize = 0;
        while i < items.len()
            invariant
                i <= items.len(),
                nodes == items@.map_values(|it: JsonValue| field(it, "track"@)),
                durations_in_range(nodes),
                tracks_view(tracks@) == first_of_each_id(lenient_tracks(nodes.take(i as int))),
            decreases items.len() - i,
        {
            assert(nodes.take(i as int + 1).drop_last() =~= nodes.take(i as int));
            assert(nodes.take(i as int + 1).last() == nodes[i as int]);
            let nv2 = JsonValue::Null;
            let node = field_of(&items[i], "track", &nv2);
            assert(duration_in_range(nodes[i as int]));
            proof {
                crate::parser::lemma_lenient_tracks_step(nodes, i as int);
            }
            match SpotifyParser::parse_track_lenient(node) {
                Some(t) => {
                    let ghost before = tracks_view(tracks@);
                    let ghost prior = lenient_tracks(nodes.take(i as int));
                    assert(prior.push(t@).drop_last() =~= prior);
                    assert(prior.push(t@).last() == t@);
                    let mut seen = false;
                    let mut k: usize = 0;
                    while k < tracks.len()
                        invariant
                            k <= tracks.len(),
                            before == tracks_view(tracks@),
                            seen == (exists|q: int| 0 <= q < k && before[q].id == t@.id),
                        decreases tracks.len() - k,
                    {
                        assert(before[k as int] == tracks@[k as int]@);
                        if str_equal(tracks[k].id.as_str(), t.id.as_str()) {
                            seen = true;
                        }
                        k += 1;
                    }
                    if !seen {
                        tracks.push(t);
                        assert(tracks_view(tracks@) =~= before.push(t@));
                    }
                },
                None => {},
            }
            i += 1;
        }
        assert(nodes.take(items.len() as int) =~= nodes);
    } else {
        assert(nodes =~= Seq::<JsonValue>::empty());
    }
    let ghost full = tracks_view(tracks@);
    tracks.truncate(10);
    assert(tracks_view(tracks@) =~= at_most(full, 10));
    proof {
        assert(full == first_of_each_id(lenient_tracks(nodes)));
        law_first_of_each_id(lenient_tracks(nodes));
        lemma_first_plays_prefix(lenient_tracks(nodes), full, 10);
    }
    tracks
}

proof fn lemma_take_first_plays(s: Seq<TrackView>, r: Seq<TrackView>, m: int)
    requires
        only_first_plays(s, r),
        0 <= m <= r.len(),
    ensures
        only_first_plays(s, r.take(m)),
{
    reveal(only_first_plays);
    assert forall|i: int| 0 <= i < m implies first_play(s, play_index(s, #[trigger] r.take(m)[i])) && s[play_index(
        s,
        r.take(m)[i],
    )] == r.take(m)[i] by {
        assert(r.take(m)[i] == r[i]);
    }
}

/// The first `n` of the first plays are still first plays, in play order,
/// with distinct ids; when fewer than `n` are left, none was cut.
proof fn lemma_first_plays_prefix(s: Seq<TrackView>, r: Seq<TrackView>, n: nat)
    requires
        keeps_first_plays(s, r),
    ensures
        distinct_ids(at_most(r, n)),
        only_first_plays(s, at_most(r, n)),
        in_first_play_order(s, at_most(r, n)),
        at_most(r, n).len() < n ==> every_id_kept(s, at_most(r, n)),
        at_most(r, n).len() <= n,
{
    let v = at_most(r, n);
    assert forall|i: int| 0 <= i < v.len() implies #[trigger] v[i] == r[i] by {}
    assert(distinct_ids(v)) by {
        reveal(distinct_ids);
        assert forall|i: int, j: int| 0 <= i < j < v.len() implies (#[trigger] v[i]).id != (#[trigger] v[j]).id by {
            assert(v[i] == r[i] && v[j] == r[j]);
        }
    }
    if r.len() <= n {
        assert(v == r);
    } else {
        lemma_take_first_plays(s, r, n as int);
    }
    assert(in_first_play_order(s, v)) by {
        reveal(in_first_play_order);
        assert forall|i: int, j: int, k1: int, k2: int|
            #![trigger v[i], v[j], first_play(s, k1), first_play(s, k2)]
            0 <= i < j < v.len() && first_play(s, k1) && first_play(s, k2) && s[k1].id == v[i].id && s[k2].id
                == v[j].id implies k1 < k2 by {
            assert(v[i] == r[i] && v[j] == r[j]);
        }
    }
    if v.len() < n {
        assert(v == r);
    }
}

/// Name, first artist and cover of an album object, with defaults.
pub fn parse_album_meta(meta: &JsonValue) -> (r: (String, String, String))
    ensures
        r.0@ == str_or(field(*meta, "name"@), "Unknown Album"@),
        r.1@ == str_or(field(elem(field(*meta, "artists"@), 0), "name"@), "Unknown"@),
        r.2@ == image_url_of(field(*meta, "images"@)),
{
    let nv = JsonValue::Null;
    let name = string_or(field_of(meta, "name", &nv), "Unknown Album");
    let artist = string_or(
        field_of(elem_of(field_of(meta, "artists", &nv), 0, &nv), "name", &nv),
        "Unknown",
    );
    let cover = first_image_url(field_of(meta, "images", &nv));
    (name, artist, cover)
}

/// The tracks of an album's track listing, all shown with the album cover
/// (items without an id are skipped).
pub fn parse_album_tracks(tracks_json: &JsonValue, cover: &String) -> (ts: Vec<Track>)
    ensures
        tracks_view(ts@) == catalog_tracks(items_of(field(*tracks_json, "items"@)), Some(cover@)),
{
    let nv = JsonValue::Null;
    match field_of(tracks_json, "items", &nv).as_array() {
        Some(items) => catalog_tracks_exec(items, &Some(cover.clone())),
        None => {
            let ts: Vec<Track> = Vec::new();
            assert(tracks_view(ts@) =~= Seq::<TrackView>::empty());
            ts
        },
    }
}

/// `json["tracks"]["next"]` when it is text: the next page of results.
pub fn next_page_url(json: &JsonValue) -> (next: Option<String>)
    ensures
        match next {
            Some(s) => as_str(field(field(*json, "tracks"@), "next"@)) == Some(s@),
            None => as_str(field(field(*json, "tracks"@), "next"@)) is None,
        },
{
    let nv = JsonValue::Null;
    match field_of(field_of(json, "tracks", &nv), "next", &nv).as_str() {
        Some(s) => Some(s.to_owned()),
        None => None,
    }
}

/// A track search response: the tracks the lenient reader accepts, and the
/// URL of the next page.
pub fn parse_search(json: &JsonValue) -> (r: (Vec<Track>, Option<String>))
    requires
        durations_in_range(search_items(*json)),
    ensures
        tracks_view(r.0@) == lenient_tracks(search_items(*json)),
        match r.1 {
            Some(s) => as_str(field(field(*json, "tracks"@), "next"@)) == Some(s@),
            None => as_str(field(field(*json, "tracks"@), "next"@)) is None,
        },
{
    let next = next_page_url(json);
    let nv = JsonValue::Null;
    let tracks = match field_of(field_of(json, "tracks", &nv), "items", &nv).as_array() {
        Some(items) => lenient_tracks_of(items),
        None => {
            let ts: Vec<Track> = Vec::new();
            assert(tracks_view(ts@) =~= Seq::<TrackView>::empty());
            ts
        },
    };
    (tracks, next)
}

/// The first hit of a one-result track search, read leniently.
pub fn first_search_hit(json: &JsonValue) -> (t: Option<Track>)
    requires
        search_items(*json).len() > 0 ==> duration_in_range(search_items(*json)[0]),
    ensures
        match t {
            Some(tr) => search_items(*json).len() > 0 && lenient_track(search_items(*json)[0]) == Some(
                tr@,
            ),
            None => search_items(*json).len() == 0 || lenient_track(search_items(*json)[0]) is None,
        },
{
    let nv = JsonValue::Null;
    match field_of(field_of(json, "tracks", &nv), "items", &nv).as_array() {
        Some(items) => if items.len() > 0 {
            SpotifyParser::parse_track_lenient(&items[0])
        } else {
            None
        },
        None => None,
    }
}

// ---------------------------------------------------------------------------
// Small response fields and request texts
// ---------------------------------------------------------------------------

/// The `snapshot_id` of a playlist write response.
pub fn snapshot_id_of(json: &JsonValue) -> (r: Result<String, String>)
    ensures
        match r {
            Ok(s) => as_str(field(*json, "snapshot_id"@)) == Some(s@),
            Err(e) => as_str(field(*json, "snapshot_id"@)) is None && e@
                == "No snapshot_id returned from Spotify API"@,
        },
{
    let nv = JsonValue::Null;
    match field_of(json, "snapshot_id", &nv).as_str() {
        Some(s) => Ok(s.to_owned()),
        None => Err("No snapshot_id returned from Spotify API".to_owned()),
    }
}

/// The album id of a track object.
pub fn album_id_of(track_json: &JsonValue) -> (r: Result<String, String>)
    ensures
        match r {
            Ok(s) => as_str(field(field(*track_json, "album"@), "id"@)) == Some(s@),
            Err(e) => as_str(field(field(*track_json, "album"@), "id"@)) is None && e@
                == "No album id found"@,
        },
{
    let nv = JsonValue::Null;
    match field_of(field_of(track_json, "album", &nv), "id", &nv).as_str() {
        Some(s) => Ok(s.to_owned()),
        None => Err("No album id found".to_owned()),
    }
}

/// The answer of a library-contains check for one track: its first entry,
/// `false` when the list is empty.
pub fn first_liked(results: &Vec<bool>) -> (liked: bool)
    ensures
        liked == (results@.len() > 0 && results@[0]),
{
    if results.len() > 0 {
        results[0]
    } else {
        false
    }
}

/// A user id without its `spotify:user:` URI prefix.
pub fn strip_user_uri(id: &str) -> (r: String)
    ensures
        r@ == (if has_prefix(id@, "spotify:user:"@) {
            id@.skip(13)
        } else {
            id@
        }),
{
    proof {
        reveal_strlit("spotify:user:");
    }
    strip_prefix_or_keep(id, "spotify:user:")
}

/// A track id without its `spotify:track:` URI prefix.
pub fn strip_track_uri(id: &str) -> (r: String)
    ensures
        r@ == (if has_prefix(id@, "spotify:track:"@) {
            id@.skip(14)
        } else {
            id@
        }),
{
    proof {
        reveal_strlit("spotify:track:");
    }
    strip_prefix_or_keep(id, "spotify:track:")
}

/// `spotify:track:<id>`.
pub fn track_uri(id: &str) -> (uri: String)
    ensures
        uri@ == "spotify:track:"@ + id@,
{
    let mut uri = "spotify:track:".to_owned();
    push_str(&mut uri, id);
    uri
}

/// The two searches tried for a recommended track: the strict
/// `track:"<title>" artist:"<artist>"` and the plain `<title> <artist>`.
pub fn recommendation_queries(title: &str, artist: &str) -> (q: (String, String))
    ensures
        q.0@ == "track:\""@ + title@ + "\" artist:\""@ + artist@ + "\""@,
        q.1@ == title@ + " "@ + artist@,
{
    let mut strict = "track:\"".to_owned();
    push_str(&mut strict, title);
    push_str(&mut strict, "\" artist:\"");
    push_str(&mut strict, artist);
    push_str(&mut strict, "\"");
    let mut plain = title.to_owned();
    push_str(&mut plain, " ");
    push_str(&mut plain, artist);
    (strict, plain)
}

/// Whether some track of `tracks` is the one with id `clean_id`, comparing
/// ids without their `spotify:track:` prefix.
pub fn contains_track(tracks: &Vec<Track>, clean_id: &str) -> (hit: bool)
    ensures
        hit == exists|k: int|
            0 <= k < tracks@.len() && (if has_prefix(tracks@[k].id@, "spotify:track:"@) {
                tracks@[k].id@.skip(14)
            } else {
                tracks@[k].id@
            }) == clean_id@,
{
    let mut i: usize = 0;
    while i < tracks.len()
        invariant
            i <= tracks.len(),
            forall|k: int|
                0 <= k < i ==> (if has_prefix(tracks@[k].id@, "spotify:track:"@) {
                    tracks@[k].id@.skip(14)
                } else {
                    tracks@[k].id@
                }) != clean_id@,
        decreases tracks.len() - i,
    {
        let stripped = strip_track_uri(tracks[i].id.as_str());
        if str_equal(stripped.as_str(), clean_id) {
            return true;
        }
        i += 1;
    }
    false
}


// ---------------------------------------------------------------------------
// Request URLs
// ---------------------------------------------------------------------------

/// Bytes a URL carries as they are: ASCII letters and digits and `-`, `.`,
/// `_`, `~`.
pub open spec fn is_unreserved(b: u8) -> bool {
    (48 <= b && b <= 57) || (65 <= b && b <= 90) || (97 <= b && b <= 122) || b == 45 || b == 46 || b == 95
        || b == 126
}

/// An upper-case hexadecimal digit.
pub open spec fn hex_digit(d: u8) -> char {
    if d < 10 {
        (48 + d) as char
    } else {
        (55 + d) as char
    }
}

/// How one byte is written in a URL: as itself when unreserved, else `%`
/// and two upper-case hexadecimal digits.
pub open spec fn percent_encoded_byte(b: u8) -> Seq<char> {
    if is_unreserved(b) {
        seq![b as char]
    } else {
        seq!['%', hex_digit(b / 16), hex_digit(b % 16)]
    }
}

/// Bytes written for a URL, byte by byte.
pub open spec fn percent_encoded(bytes: Seq<u8>) -> Seq<char>
    decreases bytes.len(),
{
    if bytes.len() == 0 {
        Seq::empty()
    } else {
        percent_encoded(bytes.drop_last()) + percent_encoded_byte(bytes.last())
    }
}

/// `urlencoding::encode`: the UTF-8 bytes of `data`, every byte but the
/// unreserved ones written as `%XX` (upper-case hexadecimal), as its source
/// does.
#[verifier::external_body]
fn url_encode(data: &str) -> (s: String)
    ensures
        s@ == percent_encoded(data.spec_bytes()),
{
    urlencoding::encode(data).into_owned()
}

/// The track search for an artist's top tracks:
/// `.../search?q=artist%3ANAME&type=track&limit=10&market=US`, the name
/// URL-encoded.
pub fn artist_search_url(name: &str) -> (url: String)
    ensures
        url@ == "https://api.spotify.com/v1/search?q=artist%3A"@ + percent_encoded(name.spec_bytes())
            + "&type=track&limit=10&market=US"@,
{
    let mut url = "https://api.spotify.com/v1/search?q=artist%3A".to_owned();
    let encoded = url_encode(name);
    push_str(&mut url, encoded.as_str());
    push_str(&mut url, "&type=track&limit=10&market=US");
    url
}

/// One page of a playlist's items: `.../playlists/ID/items?offset=N&limit=M`.
pub fn playlist_items_url(id: &str, offset: u64, limit: u64) -> (url: String)
    ensures
        url@ == "https://api.spotify.com/v1/playlists/"@ + id@ + "/items?offset="@ + decimal(offset as nat)
            + "&limit="@ + decimal(limit as nat),
{
    let mut url = "https://api.spotify.com/v1/playlists/".to_owned();
    push_str(&mut url, id);
    push_str(&mut url, "/items?offset=");
    push_decimal(&mut url, offset);
    push_str(&mut url, "&limit=");
    push_decimal(&mut url, limit);
    url
}

/// The first `n` characters of `s` (all of it when shorter).
pub open spec fn head_chars(s: Seq<char>, n: nat) -> Seq<char> {
    if s.len() <= n {
        s
    } else {
        s.take(n as int)
    }
}

/// The error a playlist fetch answers when its metadata request is refused:
/// `"Spotify {status} for playlist meta {id}: {body}"` with the body cut to
/// its first 300 characters.
pub fn playlist_meta_error(status: &str, id: &str, body: &str) -> (msg: String)
    ensures
        msg@ == "Spotify "@ + status@ + " for playlist meta "@ + id@ + ": "@ + head_chars(body@, 300),
{
    let cs = chars_of(body);
    let end: usize = if cs.len() <= 300 {
        cs.len()
    } else {
        300
    };
    let head = string_of_range(&cs, 0, end);
    assert(head@ =~= head_chars(body@, 300));
    let mut msg = "Spotify ".to_owned();
    push_str(&mut msg, status);
    push_str(&mut msg, " for playlist meta ");
    push_str(&mut msg, id);
    push_str(&mut msg, ": ");
    push_str(&mut msg, head.as_str());
    msg
}

/// What a playlist fetch keeps when the request for its first item page is
/// refused: the metadata with no tracks (saved like any other fetch).
pub fn playlist_without_items(name: String, owner: String, cover: String) -> (entry: (
    String,
    String,
    String,
    Vec<Track>,
))
    ensures
        entry.0 == name,
        entry.1 == owner,
        entry.2 == cover,
        entry.3@.len() == 0,
{
    (name, owner, cover, Vec::new())
}

/// A cached playlist is served only when it holds tracks; an empty one is
/// taken for a failed earlier fetch and fetched again.
pub fn cached_playlist_usable(entry: &(String, String, String, Vec<Track>)) -> (usable: bool)
    ensures
        usable == (entry.3@.len() > 0),
{
    entry.3.len() > 0
}


// ---------------------------------------------------------------------------
// Duration checks before parsing
// ---------------------------------------------------------------------------

/// Whether every track node of one page has a duration that rounds without
/// overflow.
pub fn page_fits(page: &JsonValue) -> (ok: bool)
    ensures
        ok == page_in_range(*page),
{
    let nv = JsonValue::Null;
    let ghost all = items_of(field(*page, "items"@));
    if let Some(items) = field_of(page, "items", &nv).as_array() {
        let mut i: usize = 0;
        while i < items.len()
            invariant
                i <= items.len(),
                nv == JsonValue::Null,
                items@ == all,
                all == items_of(field(*page, "items"@)),
                forall|k: int| 0 <= k < i ==> duration_in_range(#[trigger] item_track_node(all[k])),
            decreases items.len() - i,
        {
            let item = &items[i];
            let track_field = field_of(item, "track", &nv);
            let item_field = field_of(item, "item", &nv);
            let node = if !track_field.is_null() {
                track_field
            } else if !item_field.is_null() {
                item_field
            } else {
                item
            };
            assert(*node == item_track_node(all[i as int]));
            if !crate::parser::duration_fits(node) {
                assert(!duration_in_range(item_track_node(all[i as int])));
                return false;
            }
            i += 1;
        }
    }
    true
}

/// Whether every track node of playlist pages has a duration that rounds
/// without overflow (what [`playlist_tracks`] needs).
pub fn playlist_pages_fit(pages: &Vec<JsonValue>) -> (ok: bool)
    ensures
        ok == pages_in_range(pages@),
{
    let mut p: usize = 0;
    while p < pages.len()
        invariant
            p <= pages.len(),
            forall|q: int| 0 <= q < p ==> page_in_range(#[trigger] pages@[q]),
        decreases pages.len() - p,
    {
        if !page_fits(&pages[p]) {
            return false;
        }
        p += 1;
    }
    true
}

/// Whether every played track of a recently-played response has a duration
/// that rounds without overflow (what [`parse_recently_played`] needs).
pub fn recently_played_fits(json: &JsonValue) -> (ok: bool)
    ensures
        ok == durations_in_range(played_nodes(*json)),
{
    let nv = JsonValue::Null;
    let ghost nodes = played_nodes(*json);
    match field_of(json, "items", &nv).as_array() {
        Some(items) => {
            let mut i: usize = 0;
            while i < items.len()
                invariant
                    i <= items.len(),
                    nv == JsonValue::Null,
                    nodes == played_nodes(*json),
                    nodes == items@.map_values(|it: JsonValue| field(it, "track"@)),
                    forall|k: int| 0 <= k < i ==> duration_in_range(#[trigger] nodes[k]),
                decreases items.len() - i,
            {
                let node = field_of(&items[i], "track", &nv);
                assert(nodes[i as int] == field(items@[i as int], "track"@));
                assert(*node == nodes[i as int]);
                if !crate::parser::duration_fits(node) {
                    return false;
                }
                i += 1;
            }
            true
        },
        None => {
            assert(nodes.len() == 0);
            true
        },
    }
}

/// Whether every search result has a duration that rounds without overflow
/// (what [`parse_search`] needs).
pub fn search_fits(json: &JsonValue) -> (ok: bool)
    ensures
        ok == durations_in_range(search_items(*json)),
{
    let nv = JsonValue::Null;
    match field_of(field_of(json, "tracks", &nv), "items", &nv).as_array() {
        Some(items) => crate::parser::all_durations_fit(items),
        None => {
            assert(search_items(*json).len() == 0);
            true
        },
    }
}


/// The discography is ordered by the full `release_date` texts, newest
/// first: along the order the dates never increase (compared as texts, so
/// `"2020-11-20"` comes before `"2020-03-01"`), a missing date counting as
/// the empty text, and every album appears exactly once.
pub proof fn law_discography_by_full_release_date(items: Seq<JsonValue>)
    ensures
        newest_first(items, items.len()).len() == items.len(),
        forall|k: int| 0 <= k < items.len() ==> 0 <= #[trigger] newest_first(items, items.len())[k] < items.len(),
        forall|i: int, j: int|
            0 <= i < j < items.len() ==> !text_lt(
                str_or(field(items[#[trigger] newest_first(items, items.len())[i]], "release_date"@), ""@),
                str_or(field(items[#[trigger] newest_first(items, items.len())[j]], "release_date"@), ""@),
            ),
{
    law_albums_newest_first(items, items.len());
    lemma_newest_first_indices(items, items.len());
}

/// Text order is the lexicographic order of characters by code point: `a`
/// is before `b` when, after their longest common prefix, `a` has ended
/// and `b` has not, or `a`'s next character has the smaller code.
pub proof fn law_text_lt_is_lexicographic(a: Seq<char>, b: Seq<char>, k: int)
    requires
        0 <= k <= a.len(),
        k <= b.len(),
        a.take(k) == b.take(k),
        k == a.len() || k == b.len() || a[k] != b[k],
    ensures
        text_lt(a, b) == (if k == a.len() {
            k < b.len()
        } else if k == b.len() {
            false
        } else {
            (a[k] as u32) < (b[k] as u32)
        }),
    decreases k,
{
    if k > 0 {
        assert(a[0] == a.take(k)[0]);
        assert(b[0] == b.take(k)[0]);
        assert(a.drop_first().take(k - 1) =~= b.drop_first().take(k - 1)) by {
            assert forall|i: int| 0 <= i < k - 1 implies a.drop_first()[i] == b.drop_first()[i] by {
                assert(a.take(k)[i + 1] == b.take(k)[i + 1]);
                assert(a.take(k)[i + 1] == a[i + 1]);
                assert(b.take(k)[i + 1] == b[i + 1]);
                assert(a.drop_first()[i] == a[i + 1]);
                assert(b.drop_first()[i] == b[i + 1]);
            }
        }
        law_text_lt_is_lexicographic(a.drop_first(), b.drop_first(), k - 1);
    }
}


/// `s[k]` is the first track of `s` with its id.
pub open spec fn first_play(s: Seq<TrackView>, k: int) -> bool {
    0 <= k < s.len() && forall|j: int| 0 <= j < k ==> s[j].id != s[k].id
}

/// No two tracks of `r` share an id.
#[verifier::opaque]
pub open spec fn distinct_ids(r: Seq<TrackView>) -> bool {
    forall|i: int, j: int| 0 <= i < j < r.len() ==> (#[trigger] r[i]).id != (#[trigger] r[j]).id
}

/// Each track of `r` is the first track of `s` with its id.
#[verifier::opaque]
pub open spec fn only_first_plays(s: Seq<TrackView>, r: Seq<TrackView>) -> bool {
    forall|i: int|
        0 <= i < r.len() ==> first_play(s, play_index(s, #[trigger] r[i])) && s[play_index(s, r[i])] == r[i]
}

/// Where `t` is played first in `s`, when it is.
pub open spec fn play_index(s: Seq<TrackView>, t: TrackView) -> int {
    choose|k: int| first_play(s, k) && s[k] == t
}

proof fn lemma_play_index(s: Seq<TrackView>, t: TrackView, k: int)
    requires
        first_play(s, k),
        s[k] == t,
    ensures
        first_play(s, play_index(s, t)),
        s[play_index(s, t)] == t,
{
    assert(exists|j: int| first_play(s, j) && s[j] == t);
}

/// Every id of `s` is the id of a track of `r`.
#[verifier::opaque]
pub open spec fn every_id_kept(s: Seq<TrackView>, r: Seq<TrackView>) -> bool {
    forall|k: int| 0 <= k < s.len() ==> exists|i: int| 0 <= i < r.len() && (#[trigger] r[i]).id == (#[trigger] s[k]).id
}

/// The tracks of `r` come in the order of their ids' first plays in `s`.
#[verifier::opaque]
pub open spec fn in_first_play_order(s: Seq<TrackView>, r: Seq<TrackView>) -> bool {
    forall|i: int, j: int, k1: int, k2: int|
        #![trigger r[i], r[j], first_play(s, k1), first_play(s, k2)]
        0 <= i < j < r.len() && first_play(s, k1) && first_play(s, k2) && s[k1].id == r[i].id && s[k2].id
            == r[j].id ==> k1 < k2
}

/// `r` is the first play of each id of `s`, in play order.
pub open spec fn keeps_first_plays(s: Seq<TrackView>, r: Seq<TrackView>) -> bool {
    &&& distinct_ids(r)
    &&& only_first_plays(s, r)
    &&& every_id_kept(s, r)
    &&& in_first_play_order(s, r)
}

proof fn lemma_first_play_prefix(s: Seq<TrackView>, k: int)
    requires
        s.len() > 0,
        0 <= k < s.len() - 1,
    ensures
        first_play(s.drop_last(), k) == first_play(s, k),
        s.drop_last()[k] == s[k],
{
    assert forall|j: int| 0 <= j < k implies s.drop_last()[j] == s[j] by {}
}

proof fn lemma_first_plays_step_seen(s: Seq<TrackView>, m: int)
    requires
        s.len() > 0,
        keeps_first_plays(s.drop_last(), first_of_each_id(s.drop_last())),
        0 <= m < first_of_each_id(s.drop_last()).len(),
        first_of_each_id(s.drop_last())[m].id == s.last().id,
    ensures
        keeps_first_plays(s, first_of_each_id(s)),
{
    let d = s.drop_last();
    let r = first_of_each_id(d);
    let last = s.len() - 1;
    assert(first_of_each_id(s) == r);
    assert(first_play(d, play_index(d, r[m])) && d[play_index(d, r[m])] == r[m]) by {
        reveal(only_first_plays);
    }
    let k0 = play_index(d, r[m]);
    lemma_first_play_prefix(s, k0);
    assert(!first_play(s, last)) by {
        assert(s[k0].id == s[last].id);
    }
    assert(only_first_plays(s, r)) by {
        reveal(only_first_plays);
        assert forall|i: int| 0 <= i < r.len() implies first_play(s, play_index(s, #[trigger] r[i])) && s[play_index(
            s,
            r[i],
        )] == r[i] by {
            let k = play_index(d, r[i]);
            lemma_first_play_prefix(s, k);
            lemma_play_index(s, r[i], k);
        }
    }
    assert(every_id_kept(s, r)) by {
        reveal(every_id_kept);
        assert forall|k: int| 0 <= k < s.len() implies exists|i: int|
            0 <= i < r.len() && (#[trigger] r[i]).id == (#[trigger] s[k]).id by {
            if k == last {
                assert(r[m].id == s[k].id);
            } else {
                assert(s[k] == d[k]);
                let i = choose|i: int| 0 <= i < r.len() && (#[trigger] r[i]).id == (#[trigger] d[k]).id;
            }
        }
    }
    assert(in_first_play_order(s, r)) by {
        reveal(in_first_play_order);
        assert forall|i: int, j: int, k1: int, k2: int|
            #![trigger r[i], r[j], first_play(s, k1), first_play(s, k2)]
            0 <= i < j < r.len() && first_play(s, k1) && first_play(s, k2) && s[k1].id == r[i].id && s[k2].id
                == r[j].id implies k1 < k2 by {
            lemma_first_play_prefix(s, k1);
            lemma_first_play_prefix(s, k2);
            assert(first_play(d, k1) && first_play(d, k2));
        }
    }
}

proof fn lemma_first_plays_step_new(s: Seq<TrackView>)
    requires
        s.len() > 0,
        keeps_first_plays(s.drop_last(), first_of_each_id(s.drop_last())),
        forall|m: int|
            0 <= m < first_of_each_id(s.drop_last()).len() ==> (#[trigger] first_of_each_id(s.drop_last())[m]).id
                != s.last().id,
    ensures
        keeps_first_plays(s, first_of_each_id(s)),
{
    let d = s.drop_last();
    let r = first_of_each_id(d);
    let x = s.last();
    let last = s.len() - 1;
    let rr = r.push(x);
    assert(first_of_each_id(s) == rr);
    assert forall|j: int| 0 <= j < last implies #[trigger] s[j].id != x.id by {
        reveal(every_id_kept);
        assert(d[j] == s[j]);
        let i = choose|i: int| 0 <= i < r.len() && (#[trigger] r[i]).id == (#[trigger] d[j]).id;
    }
    assert(first_play(s, last));
    assert(distinct_ids(rr)) by {
        reveal(distinct_ids);
        assert forall|i: int, j: int| 0 <= i < j < rr.len() implies (#[trigger] rr[i]).id != (#[trigger] rr[j]).id by {
            assert(rr[i] == r[i]);
            if j < r.len() {
                assert(rr[j] == r[j]);
            }
        }
    }
    assert(only_first_plays(s, rr)) by {
        reveal(only_first_plays);
        assert forall|i: int| 0 <= i < rr.len() implies first_play(s, play_index(s, #[trigger] rr[i])) && s[play_index(
            s,
            rr[i],
        )] == rr[i] by {
            if i == r.len() {
                assert(s[last] == rr[i]);
                lemma_play_index(s, rr[i], last);
            } else {
                let k = play_index(d, r[i]);
                lemma_first_play_prefix(s, k);
                assert(rr[i] == r[i]);
                lemma_play_index(s, rr[i], k);
            }
        }
    }
    assert(every_id_kept(s, rr)) by {
        reveal(every_id_kept);
        assert forall|k: int| 0 <= k < s.len() implies exists|i: int|
            0 <= i < rr.len() && (#[trigger] rr[i]).id == (#[trigger] s[k]).id by {
            if k == last {
                assert(rr[r.len() as int] == s[k]);
            } else {
                assert(s[k] == d[k]);
                let i = choose|i: int| 0 <= i < r.len() && (#[trigger] r[i]).id == (#[trigger] d[k]).id;
                assert(rr[i] == r[i]);
            }
        }
    }
    assert(in_first_play_order(s, rr)) by {
        reveal(in_first_play_order);
        assert forall|i: int, j: int, k1: int, k2: int|
            #![trigger rr[i], rr[j], first_play(s, k1), first_play(s, k2)]
            0 <= i < j < rr.len() && first_play(s, k1) && first_play(s, k2) && s[k1].id == rr[i].id && s[k2].id
                == rr[j].id implies k1 < k2 by {
            assert(rr[i] == r[i]);
            if k1 == last {
                assert(r[i].id != x.id);
            }
            if j == r.len() {
                if k2 < last {
                    assert(s[k2].id != x.id);
                }
            } else {
                assert(rr[j] == r[j]);
                if k2 == last {
                    assert(r[j].id != x.id);
                }
                lemma_first_play_prefix(s, k1);
                lemma_first_play_prefix(s, k2);
                assert(first_play(d, k1) && first_play(d, k2));
            }
        }
    }
}

/// Keeping the first track of each id keeps exactly the first plays, in
/// the order they were played: no two kept tracks share an id, each kept
/// track is the first one of `s` with its id, every id of `s` is kept, and
/// kept tracks come in the order of their first plays.
pub proof fn law_first_of_each_id(s: Seq<TrackView>)
    ensures
        keeps_first_plays(s, first_of_each_id(s)),
    decreases s.len(),
{
    if s.len() == 0 {
        assert(first_of_each_id(s) =~= Seq::<TrackView>::empty());
        reveal(distinct_ids);
        reveal(only_first_plays);
        reveal(every_id_kept);
        reveal(in_first_play_order);
    } else {
        law_first_of_each_id(s.drop_last());
        let r = first_of_each_id(s.drop_last());
        if exists|m: int| 0 <= m < r.len() && r[m].id == s.last().id {
            let m = choose|m: int| 0 <= m < r.len() && r[m].id == s.last().id;
            lemma_first_plays_step_seen(s, m);
        } else {
            lemma_first_plays_step_new(s);
        }
    }
}

} // verus!
