//! Reading Spotify Web API track objects into [`Track`]s.
use vstd::prelude::*;
use crate::json::{
    JsonValue, as_array, as_str, as_u64, elem, elem_of, field, field_of, items_of, string_or,
    str_or,
};
use crate::providers::{Track, TrackView, spotify_track_view, tracks_view};
use crate::text::{clock_string, clock_text};

verus! {

/// `images.as_array().and_then(|a| a.first()).and_then(|i| i["url"].as_str()).unwrap_or("")`.
pub open spec fn image_url_of(images: JsonValue) -> Seq<char> {
    match as_array(images) {
        Some(a) => if a.len() > 0 {
            str_or(field(a[0], "url"@), ""@)
        } else {
            ""@
        },
        None => ""@,
    }
}

/// The duration field of a track object in milliseconds (0 when absent).
pub open spec fn duration_ms_of(v: JsonValue) -> u64 {
    match as_u64(field(v, "duration_ms"@)) {
        Some(m) => m,
        None => 0,
    }
}

/// The lenient reader keeps the node: it has a text `id` and a non-empty
/// `artists` array.
pub open spec fn lenient_keeps(v: JsonValue) -> bool {
    &&& as_str(field(v, "id"@)) is Some
    &&& as_array(field(v, "artists"@)) matches Some(a) && a.len() > 0
}

/// A node the lenient reader keeps has a duration that rounds to seconds
/// without overflow; a node it drops is never rounded, so any duration
/// will do there.
pub open spec fn duration_in_range(v: JsonValue) -> bool {
    lenient_keeps(v) ==> duration_ms_of(v) + 500 <= u64::MAX
}

/// A track object read leniently: it needs a text `id` and a non-empty
/// `artists` array; every other field falls back to a default. The duration
/// is rounded to whole seconds.
pub open spec fn lenient_track(v: JsonValue) -> Option<TrackView> {
    match as_str(field(v, "id"@)) {
        None => None,
        Some(id) => match as_array(field(v, "artists"@)) {
            None => None,
            Some(arts) => if arts.len() == 0 {
                None
            } else {
                let node = arts[0];
                Some(
                    spotify_track_view(
                        image_url_of(field(field(v, "album"@), "images"@)),
                        id,
                        str_or(field(v, "name"@), "Unknown"@),
                        str_or(field(node, "name"@), "Unknown Artist"@),
                        str_or(field(node, "id"@), ""@),
                        clock_text(((duration_ms_of(v) + 500) / 1000) as nat),
                    ),
                )
            },
        },
    }
}

/// The tracks that the lenient reader accepts among `nodes`, in order.
pub open spec fn lenient_tracks(nodes: Seq<JsonValue>) -> Seq<TrackView>
    decreases nodes.len(),
{
    if nodes.len() == 0 {
        Seq::empty()
    } else {
        let r = lenient_tracks(nodes.drop_last());
        match lenient_track(nodes.last()) {
            Some(t) => r.push(t),
            None => r,
        }
    }
}

/// Every node's duration can be rounded without overflow.
pub open spec fn durations_in_range(nodes: Seq<JsonValue>) -> bool {
    forall|i: int| 0 <= i < nodes.len() ==> duration_in_range(#[trigger] nodes[i])
}

/// One search-result item read strictly by position: missing fields become
/// defaults, the duration is truncated to whole seconds.
pub open spec fn listed_track(item: JsonValue) -> TrackView {
    let artist0 = elem(field(item, "artists"@), 0);
    spotify_track_view(
        image_url_of(field(field(item, "album"@), "images"@)),
        str_or(field(item, "id"@), ""@),
        str_or(field(item, "name"@), "Unknown"@),
        str_or(field(artist0, "name"@), "Unknown Artist"@),
        str_or(field(artist0, "id"@), ""@),
        clock_text((duration_ms_of(item) / 1000) as nat),
    )
}

/// The items of `json["tracks"]["items"]`.
pub open spec fn search_items(json: JsonValue) -> Seq<JsonValue> {
    items_of(field(field(json, "tracks"@), "items"@))
}

/// The image URL of the first entry of an `images` array, or `""`.
pub fn first_image_url(images: &JsonValue) -> (url: String)
    ensures
        url@ == image_url_of(*images),
{
    match images.as_array() {
        Some(a) => if a.len() > 0 {
            let nv = JsonValue::Null;
            string_or(field_of(&a[0], "url", &nv), "")
        } else {
            "".to_owned()
        },
        None => "".to_owned(),
    }
}

/// A track node the lenient reader keeps has a `duration_ms` that rounds to
/// seconds without overflow (a node it drops always passes).
pub fn duration_fits(v: &JsonValue) -> (ok: bool)
    ensures
        ok == duration_in_range(*v),
{
    let nv = JsonValue::Null;
    if field_of(v, "id", &nv).as_str().is_none() {
        return true;
    }
    match field_of(v, "artists", &nv).as_array() {
        Some(a) => if a.len() == 0 {
            return true;
        },
        None => {
            return true;
        },
    }
    let ms = match field_of(v, "duration_ms", &nv).as_u64() {
        Some(m) => m,
        None => 0,
    };
    ms <= u64::MAX - 500
}

/// Every node of `nodes` has a duration that rounds without overflow.
pub fn all_durations_fit(nodes: &Vec<JsonValue>) -> (ok: bool)
    ensures
        ok == durations_in_range(nodes@),
{
    let mut i: usize = 0;
    while i < nodes.len()
        invariant
            i <= nodes.len(),
            forall|j: int| 0 <= j < i ==> duration_in_range(#[trigger] nodes@[j]),
        decreases nodes.len() - i,
    {
        if !duration_fits(&nodes[i]) {
            return false;
        }
        i += 1;
    }
    true
}

pub proof fn lemma_lenient_tracks_step(nodes: Seq<JsonValue>, i: int)
    requires
        0 <= i < nodes.len(),
    ensures
        lenient_tracks(nodes.take(i + 1)) == match lenient_track(nodes[i]) {
            Some(t) => lenient_tracks(nodes.take(i)).push(t),
            None => lenient_tracks(nodes.take(i)),
        },
{
    assert(nodes.take(i + 1).drop_last() =~= nodes.take(i));
    assert(nodes.take(i + 1).last() == nodes[i]);
}

/// The Spotify parser: turns Web API JSON into [`Track`]s.
pub struct SpotifyParser;

impl SpotifyParser {
    /// Reads a track object, tolerating missing fields: `None` unless it has
    /// a text `id` and a non-empty `artists` array. The duration is rounded
    /// to the nearest second and shown as `m:ss`.
    pub fn parse_track_lenient(v: &JsonValue) -> (t: Option<Track>)
        requires
            duration_in_range(*v),
        ensures
            match t {
                Some(tr) => lenient_track(*v) == Some(tr@),
                None => lenient_track(*v) is None,
            },
    {
        let nv = JsonValue::Null;
        let id = match field_of(v, "id", &nv).as_str() {
            Some(s) => s.to_owned(),
            None => {
                return None;
            },
        };
        let title = string_or(field_of(v, "name", &nv), "Unknown");
        let artists = match field_of(v, "artists", &nv).as_array() {
            Some(a) => a,
            None => {
                return None;
            },
        };
        if artists.len() == 0 {
            return None;
        }
        let artist_node = &artists[0];
        let artist = string_or(field_of(artist_node, "name", &nv), "Unknown Artist");
        let artist_id = string_or(field_of(artist_node, "id", &nv), "");
        let album_url = first_image_url(field_of(field_of(v, "album", &nv), "images", &nv));
        let duration_ms: u64 = match field_of(v, "duration_ms", &nv).as_u64() {
            Some(m) => m,
            None => 0,
        };
        let seconds = (duration_ms + 500) / 1000;
        Some(Track::spotify(album_url, id, title, artist, artist_id, clock_string(seconds)))
    }

    /// Reads every entry of `json["tracks"]["items"]` by position, with
    /// defaults for missing fields; never fails.
    pub fn parse_tracks_from_json(json: JsonValue) -> (r: Result<Vec<Track>, String>)
        ensures
            match r {
                Ok(ts) => tracks_view(ts@) == search_items(json).map_values(|i: JsonValue| listed_track(i)),
                Err(_) => false,
            },
    {
        let mut tracks: Vec<Track> = Vec::new();
        let nv = JsonValue::Null;
        let items_node = field_of(field_of(&json, "tracks", &nv), "items", &nv);
        let ghost items = search_items(json);
        if let Some(items) = items_node.as_array() {
            let mut i: usize = 0;
            while i < items.len()
                invariant
                    i <= items.len(),
                    items@ == search_items(json),
                    tracks@.len() == i,
                    forall|j: int| 0 <= j < i ==> #[trigger] tracks@[j]@ == listed_track(items@[j]),
                decreases items.len() - i,
            {
                let item = &items[i];
                let nv2 = JsonValue::Null;
                let album_url = first_image_url(
                    field_of(field_of(item, "album", &nv2), "images", &nv2),
                );
                let id = string_or(field_of(item, "id", &nv2), "");
                let title = string_or(field_of(item, "name", &nv2), "Unknown");
                let artist0 = elem_of(field_of(item, "artists", &nv2), 0, &nv2);
                let artist = string_or(field_of(artist0, "name", &nv2), "Unknown Artist");
                let artist_id = string_or(field_of(artist0, "id", &nv2), "");
                let duration_ms: u64 = match field_of(item, "duration_ms", &nv2).as_u64() {
                    Some(m) => m,
                    None => 0,
                };
                let seconds = duration_ms / 1000;
                tracks.push(
                    Track::spotify(album_url, id, title, artist, artist_id, clock_string(seconds)),
                );
                i += 1;
            }
        }
        assert(tracks_view(tracks@) =~= items.map_values(|i: JsonValue| listed_track(i)));
        Ok(tracks)
    }
}

/// The lenient reader applied to every node of `nodes`, keeping the tracks
/// it accepts, in order.
pub fn lenient_tracks_of(nodes: &Vec<JsonValue>) -> (ts: Vec<Track>)
    requires
        durations_in_range(nodes@),
    ensures
        tracks_view(ts@) == lenient_tracks(nodes@),
{
    let mut ts: Vec<Track> = Vec::new();
    let mut i: usize = 0;
    while i < nodes.len()
        invariant
            i <= nodes.len(),
            durations_in_range(nodes@),
            tracks_view(ts@) == lenient_tracks(nodes@.take(i as int)),
        decreases nodes.len() - i,
    {
        proof {
            lemma_lenient_tracks_step(nodes@, i as int);
        }
        match SpotifyParser::parse_track_lenient(&nodes[i]) {
            Some(t) => {
                let ghost before = tracks_view(ts@);
                ts.push(t);
                assert(tracks_view(ts@) =~= before.push(t@));
            },
            None => {},
        }
        i += 1;
    }
    assert(nodes@.take(nodes.len() as int) =~= nodes@);
    ts
}


/// A track object the lenient reader keeps gives a track whose id is its
/// text `id`, whose title is its `name` (or "Unknown"), whose artist and
/// artist id are the `name` and `id` of the first element of `artists` (or
/// "Unknown Artist" and ""), whose cover is the first album image (or ""),
/// with the Spotify stream format (44.1 kHz, 16 bit), and whose duration is
/// `duration_ms` rounded to the nearest second and written `m:ss`; a node
/// without a text id or with no artists gives none.
pub proof fn law_lenient_track_fields(v: JsonValue)
    ensures
        lenient_track(v) is Some <==> (as_str(field(v, "id"@)) is Some && (as_array(field(v, "artists"@)) matches Some(
            a,
        ) && a.len() > 0)),
        lenient_track(v) matches Some(t) ==> {
            let first = as_array(field(v, "artists"@))->0[0];
            &&& Some(t.id) == as_str(field(v, "id"@))
            &&& t.title == str_or(field(v, "name"@), "Unknown"@)
            &&& t.artist == str_or(field(first, "name"@), "Unknown Artist"@)
            &&& t.artist_id == str_or(field(first, "id"@), ""@)
            &&& t.album_url == image_url_of(field(field(v, "album"@), "images"@))
            &&& t.duration_str == clock_text(((duration_ms_of(v) + 500) / 1000) as nat)
            &&& t.source == crate::providers::ProviderType::Spotify
            &&& t.sample_rate == 44100
            &&& t.bit_depth == 16
        },
{
}

} // verus!
