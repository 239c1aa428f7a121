//! The track record shared by every music source.
use vstd::prelude::*;

verus! {

/// Where a track comes from.
#[derive(Clone, Copy, Debug, PartialEq, Eq, Structural)]
pub enum ProviderType {
    Spotify,
    YoutubeMusic,
    LocalMusic,
}

/// A playable item, or an item shown in a track-shaped list (playlists,
/// artists and albums reuse the same fields).
#[derive(Clone, Debug)]
pub struct Track {
    pub album_url: String,
    pub id: String,
    pub title: String,
    pub artist: String,
    pub artist_id: String,
    pub source: ProviderType,
    pub sample_rate: u32,
    pub bit_depth: u8,
    pub duration_str: String,
}

/// The fields of a [`Track`] as character sequences.
pub struct TrackView {
    pub album_url: Seq<char>,
    pub id: Seq<char>,
    pub title: Seq<char>,
    pub artist: Seq<char>,
    pub artist_id: Seq<char>,
    pub source: ProviderType,
    pub sample_rate: u32,
    pub bit_depth: u8,
    pub duration_str: Seq<char>,
}

impl View for Track {
    type V = TrackView;

    open spec fn view(&self) -> TrackView {
        TrackView {
            album_url: self.album_url@,
            id: self.id@,
            title: self.title@,
            artist: self.artist@,
            artist_id: self.artist_id@,
            source: self.source,
            sample_rate: self.sample_rate,
            bit_depth: self.bit_depth,
            duration_str: self.duration_str@,
        }
    }
}

/// The views of a list of tracks.
pub open spec fn tracks_view(v: Seq<Track>) -> Seq<TrackView> {
    v.map_values(|t: Track| t@)
}

/// A Spotify track record with the fixed stream format (44.1 kHz, 16 bit).
pub open spec fn spotify_track_view(
    album_url: Seq<char>,
    id: Seq<char>,
    title: Seq<char>,
    artist: Seq<char>,
    artist_id: Seq<char>,
    duration_str: Seq<char>,
) -> TrackView {
    TrackView {
        album_url,
        id,
        title,
        artist,
        artist_id,
        source: ProviderType::Spotify,
        sample_rate: 44100,
        bit_depth: 16,
        duration_str,
    }
}

impl Track {
    /// A Spotify track with the fixed stream format (44.1 kHz, 16 bit).
    pub fn spotify(
        album_url: String,
        id: String,
        title: String,
        artist: String,
        artist_id: String,
        duration_str: String,
    ) -> (t: Track)
        ensures
            t@ == spotify_track_view(album_url@, id@, title@, artist@, artist_id@, duration_str@),
    {
        Track {
            album_url,
            id,
            title,
            artist,
            artist_id,
            source: ProviderType::Spotify,
            sample_rate: 44100,
            bit_depth: 16,
            duration_str,
        }
    }

    /// A field-by-field copy.
    pub fn duplicate(&self) -> (t: Track)
        ensures
            t@ == self@,
    {
        Track {
            album_url: self.album_url.clone(),
            id: self.id.clone(),
            title: self.title.clone(),
            artist: self.artist.clone(),
            artist_id: self.artist_id.clone(),
            source: self.source,
            sample_rate: self.sample_rate,
            bit_depth: self.bit_depth,
            duration_str: self.duration_str.clone(),
        }
    }
}

/// A copy of a list of tracks.
pub fn duplicate_tracks(v: &Vec<Track>) -> (r: Vec<Track>)
    ensures
        tracks_view(r@) == tracks_view(v@),
{
    let mut r: Vec<Track> = Vec::new();
    let mut i: usize = 0;
    while i < v.len()
        invariant
            i <= v.len(),
            r@.len() == i,
            forall|j: int| 0 <= j < i ==> #[trigger] r@[j]@ == v@[j]@,
        decreases v.len() - i,
    {
        r.push(v[i].duplicate());
        i += 1;
    }
    assert(tracks_view(r@) =~= tracks_view(v@));
    r
}

} // verus!
