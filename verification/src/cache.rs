//! The in-memory layers of the Spotify cache: text-keyed maps for tracks,
//! playlists, artists and albums, and the reverse index from a track to the
//! playlists known to contain it.
use vstd::prelude::*;
use crate::providers::{Track, TrackView, tracks_view};
use crate::text::{
    char_is_alphanumeric, chars_of, has_prefix, is_alphanumeric, map_chars, push_str, rfind_char, rfind_in,
    starts_with, str_equal, string_of_range, string_push,
};

verus! {

// ---------------------------------------------------------------------------
// Text-keyed map
// ---------------------------------------------------------------------------

/// A map from texts to values; a later insert under the same key replaces
/// the value.
pub struct StringMap<V> {
    entries: Vec<(String, V)>,
}

/// An index of `es` whose key is `k`.
pub open spec fn has_key_at<V>(es: Seq<(String, V)>, k: Seq<char>, i: int) -> bool {
    0 <= i < es.len() && es[i].0@ == k
}

impl<V> View for StringMap<V> {
    type V = Map<Seq<char>, V>;

    closed spec fn view(&self) -> Map<Seq<char>, V> {
        Map::new(
            |k: Seq<char>| exists|i: int| has_key_at(self.entries@, k, i),
            |k: Seq<char>| self.entries@[choose|i: int| has_key_at(self.entries@, k, i)].1,
        )
    }
}

impl<V> StringMap<V> {
    /// No key occurs twice.
    pub closed spec fn wf(&self) -> bool {
        forall|i: int, j: int|
            0 <= i < self.entries@.len() && 0 <= j < self.entries@.len() && i != j
                ==> self.entries@[i].0@ != self.entries@[j].0@
    }

    proof fn lemma_value_at(&self, i: int)
        requires
            self.wf(),
            0 <= i < self.entries@.len(),
        ensures
            self@.contains_key(self.entries@[i].0@),
            self@[self.entries@[i].0@] == self.entries@[i].1,
    {
        let k = self.entries@[i].0@;
        assert(has_key_at(self.entries@, k, i));
        let j = choose|j: int| has_key_at(self.entries@, k, j);
        assert(j == i);
    }

    /// An empty map.
    pub fn new() -> (m: StringMap<V>)
        ensures
            m.wf(),
            m@ == Map::<Seq<char>, V>::empty(),
    {
        let m = StringMap { entries: Vec::new() };
        assert(m@ =~= Map::<Seq<char>, V>::empty());
        m
    }

    /// Number of keys.
    pub fn len(&self) -> (n: usize)
        requires
            self.wf(),
        ensures
            n == self@.len(),
    {
        proof {
            self.lemma_len();
        }
        self.entries.len()
    }

    proof fn lemma_len(&self)
        requires
            self.wf(),
        ensures
            self@.dom().finite(),
            self@.len() == self.entries@.len(),
        decreases self.entries@.len(),
    {
        let keys = self.entries@.map_values(|e: (String, V)| e.0@);
        assert(keys.no_duplicates()) by {
            assert forall|i: int, j: int| 0 <= i < keys.len() && 0 <= j < keys.len() && i != j implies keys[i]
                != keys[j] by {}
        }
        assert(self@.dom() =~= keys.to_set()) by {
            assert forall|k: Seq<char>| self@.dom().contains(k) implies keys.to_set().contains(k) by {
                let i = choose|i: int| has_key_at(self.entries@, k, i);
                assert(keys[i] == k);
            }
            assert forall|k: Seq<char>| keys.to_set().contains(k) implies self@.dom().contains(k) by {
                let i = choose|i: int| 0 <= i < keys.len() && keys[i] == k;
                assert(has_key_at(self.entries@, k, i));
            }
        }
        keys.unique_seq_to_set();
    }

    /// Index of the entry with key `key`.
    fn position(&self, key: &str) -> (r: Option<usize>)
        requires
            self.wf(),
        ensures
            match r {
                Some(i) => has_key_at(self.entries@, key@, i as int),
                None => !self@.contains_key(key@),
            },
    {
        let mut i: usize = 0;
        while i < self.entries.len()
            invariant
                i <= self.entries.len(),
                forall|j: int| 0 <= j < i ==> self.entries@[j].0@ != key@,
            decreases self.entries.len() - i,
        {
            if str_equal(self.entries[i].0.as_str(), key) {
                return Some(i);
            }
            i += 1;
        }
        None
    }

    /// The value under `key`.
    pub fn get(&self, key: &str) -> (r: Option<&V>)
        requires
            self.wf(),
        ensures
            match r {
                Some(v) => self@.contains_key(key@) && *v == self@[key@],
                None => !self@.contains_key(key@),
            },
    {
        match self.position(key) {
            Some(i) => {
                proof {
                    self.lemma_value_at(i as int);
                }
                Some(&self.entries[i].1)
            },
            None => None,
        }
    }

    /// Stores `value` under `key`, replacing any earlier value.
    pub fn insert(&mut self, key: String, value: V)
        requires
            old(self).wf(),
        ensures
            final(self).wf(),
            final(self)@ == old(self)@.insert(key@, value),
    {
        let ghost old_map = self@;
        match self.position(key.as_str()) {
            Some(i) => {
                let ghost k = key@;
                self.entries.set(i, (key, value));
                assert(self@ =~= old_map.insert(k, value)) by {
                    assert forall|q: Seq<char>| #[trigger] self@.contains_key(q) == old_map.insert(k, value).contains_key(q) by {
                        if exists|j: int| has_key_at(self.entries@, q, j) {
                            let j = choose|j: int| has_key_at(self.entries@, q, j);
                            if j != i {
                                assert(has_key_at(old(self).entries@, q, j));
                            }
                        }
                        if exists|j: int| has_key_at(old(self).entries@, q, j) {
                            let j = choose|j: int| has_key_at(old(self).entries@, q, j);
                            assert(has_key_at(self.entries@, q, j));
                        }
                    }
                    assert forall|q: Seq<char>| #[trigger] self@.contains_key(q) implies self@[q] == old_map.insert(
                        k,
                        value,
                    )[q] by {
                        let j = choose|j: int| has_key_at(self.entries@, q, j);
                        self.lemma_value_at(j);
                        if j != i {
                            assert(has_key_at(old(self).entries@, q, j));
                            old(self).lemma_value_at(j);
                        }
                    }
                }
            },
            None => {
                let ghost k = key@;
                self.entries.push((key, value));
                let ghost n: int = self.entries@.len() - 1;
                assert(self.wf()) by {
                    assert forall|a: int, b: int|
                        0 <= a < self.entries@.len() && 0 <= b < self.entries@.len() && a != b implies self.entries@[a].0@
                        != self.entries@[b].0@ by {
                        if a == n {
                            assert(!has_key_at(old(self).entries@, k, b));
                        } else if b == n {
                            assert(!has_key_at(old(self).entries@, k, a));
                        } else {
                            assert(self.entries@[a] == old(self).entries@[a]);
                            assert(self.entries@[b] == old(self).entries@[b]);
                        }
                    }
                }
                assert(self@ =~= old_map.insert(k, value)) by {
                    assert forall|q: Seq<char>| #[trigger] self@.contains_key(q) == old_map.insert(k, value).contains_key(q) by {
                        if exists|j: int| has_key_at(self.entries@, q, j) {
                            let j = choose|j: int| has_key_at(self.entries@, q, j);
                            if j != n {
                                assert(has_key_at(old(self).entries@, q, j));
                            }
                        }
                        if exists|j: int| has_key_at(old(self).entries@, q, j) {
                            let j = choose|j: int| has_key_at(old(self).entries@, q, j);
                            assert(has_key_at(self.entries@, q, j));
                        }
                        if q == k {
                            assert(has_key_at(self.entries@, q, n));
                        }
                    }
                    assert forall|q: Seq<char>| #[trigger] self@.contains_key(q) implies self@[q] == old_map.insert(
                        k,
                        value,
                    )[q] by {
                        let j = choose|j: int| has_key_at(self.entries@, q, j);
                        self.lemma_value_at(j);
                        if j != n {
                            assert(has_key_at(old(self).entries@, q, j));
                            old(self).lemma_value_at(j);
                        }
                    }
                }
            },
        }
    }

    /// Removes the entry under `key` and returns its value.
    pub fn remove(&mut self, key: &str) -> (r: Option<V>)
        requires
            old(self).wf(),
        ensures
            final(self).wf(),
            final(self)@ == old(self)@.remove(key@),
            match r {
                Some(v) => old(self)@.contains_key(key@) && v == old(self)@[key@],
                None => !old(self)@.contains_key(key@),
            },
    {
        let ghost old_map = self@;
        match self.position(key) {
            Some(i) => {
                proof {
                    self.lemma_value_at(i as int);
                }
                let (_, v) = self.entries.remove(i);
                assert(self.wf()) by {
                    assert forall|a: int, b: int|
                        0 <= a < self.entries@.len() && 0 <= b < self.entries@.len() && a != b implies self.entries@[a].0@
                        != self.entries@[b].0@ by {
                        let oa = if a < i { a } else { a + 1 };
                        let ob = if b < i { b } else { b + 1 };
                        assert(self.entries@[a] == old(self).entries@[oa]);
                        assert(self.entries@[b] == old(self).entries@[ob]);
                    }
                }
                assert(self@ =~= old_map.remove(key@)) by {
                    assert forall|q: Seq<char>| #[trigger] self@.contains_key(q) == old_map.remove(key@).contains_key(q) by {
                        if exists|j: int| has_key_at(self.entries@, q, j) {
                            let j = choose|j: int| has_key_at(self.entries@, q, j);
                            let oj = if j < i { j } else { j + 1 };
                            assert(self.entries@[j] == old(self).entries@[oj]);
                            assert(has_key_at(old(self).entries@, q, oj));
                        }
                        if q != key@ && exists|j: int| has_key_at(old(self).entries@, q, j) {
                            let j = choose|j: int| has_key_at(old(self).entries@, q, j);
                            assert(j != i);
                            let nj = if j < i { j } else { j - 1 };
                            assert(self.entries@[nj] == old(self).entries@[j]);
                            assert(has_key_at(self.entries@, q, nj));
                        }
                    }
                    assert forall|q: Seq<char>| #[trigger] self@.contains_key(q) implies self@[q] == old_map.remove(
                        key@,
                    )[q] by {
                        let j = choose|j: int| has_key_at(self.entries@, q, j);
                        self.lemma_value_at(j);
                        let oj = if j < i { j } else { j + 1 };
                        assert(self.entries@[j] == old(self).entries@[oj]);
                        old(self).lemma_value_at(oj);
                    }
                }
                Some(v)
            },
            None => {
                assert(self@ =~= old_map.remove(key@));
                None
            },
        }
    }

    /// The keys, in storage order.
    pub fn keys(&self) -> (ks: Vec<String>)
        requires
            self.wf(),
        ensures
            forall|k: Seq<char>| self@.contains_key(k) <==> texts(ks@).contains(k),
            texts(ks@).no_duplicates(),
    {
        let mut ks: Vec<String> = Vec::new();
        let mut i: usize = 0;
        while i < self.entries.len()
            invariant
                i <= self.entries.len(),
                self.wf(),
                ks@.len() == i,
                forall|j: int| 0 <= j < i ==> #[trigger] ks@[j]@ == self.entries@[j].0@,
            decreases self.entries.len() - i,
        {
            ks.push(self.entries[i].0.clone());
            i += 1;
        }
        assert forall|k: Seq<char>| self@.contains_key(k) <==> texts(ks@).contains(k) by {
            if self@.contains_key(k) {
                let j = choose|j: int| has_key_at(self.entries@, k, j);
                assert(texts(ks@)[j] == k);
            }
            if texts(ks@).contains(k) {
                let j = choose|j: int| 0 <= j < texts(ks@).len() && texts(ks@)[j] == k;
                assert(has_key_at(self.entries@, k, j));
            }
        }
        ks
    }

    /// Number of entries, for walking them by position.
    fn entry_count(&self) -> (n: usize)
        ensures
            n == self.entries@.len(),
    {
        self.entries.len()
    }
}

// ---------------------------------------------------------------------------
// Reverse index: track id -> playlists
// ---------------------------------------------------------------------------

/// The texts of a list of strings.
pub open spec fn texts(v: Seq<String>) -> Seq<Seq<char>> {
    v.map_values(|s: String| s@)
}

/// The playlists recorded for `track` (none when it is not indexed).
pub open spec fn playlists_of(m: Map<Seq<char>, Seq<Seq<char>>>, track: Seq<char>) -> Seq<Seq<char>> {
    if m.contains_key(track) {
        m[track]
    } else {
        Seq::empty()
    }
}

/// `m` after recording that `playlist` contains `track`: appended to the
/// track's list unless already there.
pub open spec fn with_entry(m: Map<Seq<char>, Seq<Seq<char>>>, playlist: Seq<char>, track: Seq<char>) -> Map<
    Seq<char>,
    Seq<Seq<char>>,
> {
    let cur = playlists_of(m, track);
    m.insert(
        track,
        if cur.contains(playlist) {
            cur
        } else {
            cur.push(playlist)
        },
    )
}

/// `m` after recording `playlist` for every track id of `ids`, in order.
pub open spec fn with_playlist(m: Map<Seq<char>, Seq<Seq<char>>>, playlist: Seq<char>, ids: Seq<Seq<char>>) -> Map<
    Seq<char>,
    Seq<Seq<char>>,
>
    decreases ids.len(),
{
    if ids.len() == 0 {
        m
    } else {
        with_entry(with_playlist(m, playlist, ids.drop_last()), playlist, ids.last())
    }
}

/// `l` without the occurrences of `x`.
pub open spec fn without(l: Seq<Seq<char>>, x: Seq<char>) -> Seq<Seq<char>>
    decreases l.len(),
{
    if l.len() == 0 {
        l
    } else {
        let r = without(l.drop_last(), x);
        if l.last() == x {
            r
        } else {
            r.push(l.last())
        }
    }
}

/// `m` with `playlist` removed from every track's list (the keys stay).
pub open spec fn without_playlist(m: Map<Seq<char>, Seq<Seq<char>>>, playlist: Seq<char>) -> Map<
    Seq<char>,
    Seq<Seq<char>>,
> {
    Map::new(|k: Seq<char>| m.contains_key(k), |k: Seq<char>| without(m[k], playlist))
}

/// The ids of a list of tracks.
pub open spec fn track_ids(ts: Seq<TrackView>) -> Seq<Seq<char>> {
    ts.map_values(|t: TrackView| t.id)
}

/// Which playlists are known to contain each track.
pub struct PlaylistIndex {
    map: StringMap<Vec<String>>,
}

impl View for PlaylistIndex {
    type V = Map<Seq<char>, Seq<Seq<char>>>;

    closed spec fn view(&self) -> Map<Seq<char>, Seq<Seq<char>>> {
        Map::new(|k: Seq<char>| self.map@.contains_key(k), |k: Seq<char>| texts(self.map@[k]@))
    }
}

/// A copy of a list of strings.
pub fn copy_strings(v: &Vec<String>) -> (r: Vec<String>)
    ensures
        texts(r@) == texts(v@),
{
    let mut r: Vec<String> = Vec::new();
    let mut i: usize = 0;
    while i < v.len()
        invariant
            i <= v.len(),
            r@.len() == i,
            forall|j: int| 0 <= j < i ==> #[trigger] r@[j]@ == v@[j]@,
        decreases v.len() - i,
    {
        r.push(v[i].clone());
        i += 1;
    }
    assert(texts(r@) =~= texts(v@));
    r
}

/// Whether `v` holds the text `x`.
pub fn contains_text(v: &Vec<String>, x: &str) -> (r: bool)
    ensures
        r == texts(v@).contains(x@),
{
    let mut i: usize = 0;
    while i < v.len()
        invariant
            i <= v.len(),
            forall|j: int| 0 <= j < i ==> v@[j]@ != x@,
        decreases v.len() - i,
    {
        if str_equal(v[i].as_str(), x) {
            assert(texts(v@)[i as int] == x@);
            return true;
        }
        i += 1;
    }
    assert forall|j: int| 0 <= j < texts(v@).len() implies texts(v@)[j] != x@ by {}
    false
}

/// `v` without the texts equal to `x`.
pub fn without_text(v: &Vec<String>, x: &str) -> (r: Vec<String>)
    ensures
        texts(r@) == without(texts(v@), x@),
{
    let mut r: Vec<String> = Vec::new();
    let mut i: usize = 0;
    while i < v.len()
        invariant
            i <= v.len(),
            texts(r@) == without(texts(v@).take(i as int), x@),
        decreases v.len() - i,
    {
        assert(texts(v@).take(i as int + 1).drop_last() =~= texts(v@).take(i as int));
        assert(texts(v@).take(i as int + 1).last() == v@[i as int]@);
        if !str_equal(v[i].as_str(), x) {
            let ghost before = texts(r@);
            r.push(v[i].clone());
            assert(texts(r@) =~= before.push(v@[i as int]@));
        }
        i += 1;
    }
    assert(texts(v@).take(v.len() as int) =~= texts(v@));
    r
}

impl PlaylistIndex {
    /// The underlying map is well formed.
    pub closed spec fn wf(&self) -> bool {
        self.map.wf()
    }

    /// An empty index.
    pub fn new() -> (ix: PlaylistIndex)
        ensures
            ix.wf(),
            ix@ == Map::<Seq<char>, Seq<Seq<char>>>::empty(),
    {
        let ix = PlaylistIndex { map: StringMap::new() };
        assert(ix@ =~= Map::<Seq<char>, Seq<Seq<char>>>::empty());
        ix
    }

    /// The playlists recorded for `track_id` (empty when none).
    pub fn playlists_containing(&self, track_id: &str) -> (r: Vec<String>)
        requires
            self.wf(),
        ensures
            texts(r@) == playlists_of(self@, track_id@),
    {
        match self.map.get(track_id) {
            Some(l) => copy_strings(l),
            None => {
                let r: Vec<String> = Vec::new();
                assert(texts(r@) =~= Seq::<Seq<char>>::empty());
                r
            },
        }
    }

    /// Records that `playlist_id` contains `track_id`.
    fn record(&mut self, playlist_id: &str, track_id: &str)
        requires
            old(self).wf(),
        ensures
            final(self).wf(),
            final(self)@ == with_entry(old(self)@, playlist_id@, track_id@),
    {
        let mut cur: Vec<String> = match self.map.get(track_id) {
            Some(l) => copy_strings(l),
            None => Vec::new(),
        };
        assert(texts(cur@) == playlists_of(self@, track_id@));
        if !contains_text(&cur, playlist_id) {
            let ghost before = texts(cur@);
            cur.push(playlist_id.to_owned());
            assert(texts(cur@) =~= before.push(playlist_id@));
        }
        let ghost old_view = self@;
        let ghost new_list = texts(cur@);
        self.map.insert(track_id.to_owned(), cur);
        assert(self@ =~= with_entry(old_view, playlist_id@, track_id@));
    }

    /// Records `playlist_id` for every track of `tracks` (the entries for
    /// other playlists stay).
    pub fn add_playlist(&mut self, playlist_id: &str, tracks: &Vec<Track>)
        requires
            old(self).wf(),
        ensures
            final(self).wf(),
            final(self)@ == with_playlist(old(self)@, playlist_id@, track_ids(tracks_view(tracks@))),
    {
        let ghost ids = track_ids(tracks_view(tracks@));
        let mut i: usize = 0;
        while i < tracks.len()
            invariant
                i <= tracks.len(),
                ids == track_ids(tracks_view(tracks@)),
                self.wf(),
                self@ == with_playlist(old(self)@, playlist_id@, ids.take(i as int)),
            decreases tracks.len() - i,
        {
            assert(ids.take(i as int + 1).drop_last() =~= ids.take(i as int));
            assert(ids.take(i as int + 1).last() == tracks@[i as int].id@);
            self.record(playlist_id, tracks[i].id.as_str());
            i += 1;
        }
        assert(ids.take(tracks.len() as int) =~= ids);
    }

    /// Forgets `playlist_id` everywhere, then records it for exactly the
    /// tracks of `tracks`: the index after a playlist was (re)loaded.
    pub fn replace_playlist(&mut self, playlist_id: &str, tracks: &Vec<Track>)
        requires
            old(self).wf(),
        ensures
            final(self).wf(),
            final(self)@ == with_playlist(
                without_playlist(old(self)@, playlist_id@),
                playlist_id@,
                track_ids(tracks_view(tracks@)),
            ),
    {
        let ghost start = self@;
        let n = self.map.entry_count();
        let mut i: usize = 0;
        while i < n
            invariant
                i <= n,
                n == self.map.entries@.len(),
                self.wf(),
                forall|j: int| 0 <= j < n ==> #[trigger] self.map.entries@[j].0@ == old(self).map.entries@[j].0@,
                forall|j: int| 0 <= j < i ==> texts(#[trigger] self.map.entries@[j].1@) == without(
                    texts(old(self).map.entries@[j].1@),
                    playlist_id@,
                ),
                forall|j: int| i <= j < n ==> #[trigger] self.map.entries@[j] == old(self).map.entries@[j],
            decreases n - i,
        {
            let kept = without_text(&self.map.entries[i].1, playlist_id);
            let key = self.map.entries[i].0.clone();
            self.map.entries.set(i, (key, kept));
            i += 1;
        }
        assert(self@ =~= without_playlist(start, playlist_id@)) by {
            assert forall|q: Seq<char>| #[trigger] self@.contains_key(q) == start.contains_key(q) by {
                if exists|j: int| has_key_at(self.map.entries@, q, j) {
                    let j = choose|j: int| has_key_at(self.map.entries@, q, j);
                    assert(has_key_at(old(self).map.entries@, q, j));
                }
                if exists|j: int| has_key_at(old(self).map.entries@, q, j) {
                    let j = choose|j: int| has_key_at(old(self).map.entries@, q, j);
                    assert(has_key_at(self.map.entries@, q, j));
                }
            }
            assert forall|q: Seq<char>| #[trigger] self@.contains_key(q) implies self@[q] == without(
                start[q],
                playlist_id@,
            ) by {
                let j = choose|j: int| has_key_at(self.map.entries@, q, j);
                self.map.lemma_value_at(j);
                assert(has_key_at(old(self).map.entries@, q, j));
                old(self).map.lemma_value_at(j);
            }
        }
        self.add_playlist(playlist_id, tracks);
    }
}


// ---------------------------------------------------------------------------
// The cache as a whole
// ---------------------------------------------------------------------------

/// A cached playlist or album: name, owner or artist, cover URL, tracks.
pub type ListEntry = (String, String, String, Vec<Track>);

/// A cached artist: name, image URL, top tracks, releases.
pub type ArtistEntry = (String, String, Vec<Track>, Vec<Track>);

/// The in-memory layers of the Spotify cache: tracks by id, the user's
/// playlists, playlists, artists and albums by id, and the reverse index.
/// The disk layer is read and written by the caller.
pub struct SpotifyCache {
    tracks: StringMap<Track>,
    user_playlists: Option<Vec<Track>>,
    playlists: StringMap<ListEntry>,
    artists: StringMap<ArtistEntry>,
    albums: StringMap<ListEntry>,
    index: PlaylistIndex,
}

/// The cache as the contracts see it.
pub struct CacheView {
    pub tracks: Map<Seq<char>, Track>,
    pub user_playlists: Option<Seq<Track>>,
    pub playlists: Map<Seq<char>, ListEntry>,
    pub artists: Map<Seq<char>, ArtistEntry>,
    pub albums: Map<Seq<char>, ListEntry>,
    pub index: Map<Seq<char>, Seq<Seq<char>>>,
}

impl View for SpotifyCache {
    type V = CacheView;

    closed spec fn view(&self) -> CacheView {
        CacheView {
            tracks: self.tracks@,
            user_playlists: match self.user_playlists {
                Some(v) => Some(v@),
                None => None,
            },
            playlists: self.playlists@,
            artists: self.artists@,
            albums: self.albums@,
            index: self.index@,
        }
    }
}

/// The cache after a playlist read from disk is kept: remembered in memory
/// and recorded in the index for each of its tracks.
pub open spec fn with_loaded_playlist(v: CacheView, id: Seq<char>, data: ListEntry) -> CacheView {
    CacheView {
        playlists: v.playlists.insert(id, data),
        index: with_playlist(v.index, id, track_ids(tracks_view(data.3@))),
        ..v
    }
}

/// The cache after a playlist is saved: remembered in memory, and the index
/// lists it for exactly its current tracks.
pub open spec fn with_saved_playlist(v: CacheView, id: Seq<char>, data: ListEntry) -> CacheView {
    CacheView {
        playlists: v.playlists.insert(id, data),
        index: with_playlist(without_playlist(v.index, id), id, track_ids(tracks_view(data.3@))),
        ..v
    }
}

/// The cache after the playlists found on disk are loaded, in order.
pub open spec fn with_loaded_playlists(v: CacheView, loaded: Seq<(String, ListEntry)>) -> CacheView
    decreases loaded.len(),
{
    if loaded.len() == 0 {
        v
    } else {
        let before = with_loaded_playlists(v, loaded.drop_last());
        with_loaded_playlist(before, loaded.last().0@, loaded.last().1)
    }
}

impl SpotifyCache {
    /// All layers are well formed.
    pub closed spec fn wf(&self) -> bool {
        &&& self.tracks.wf()
        &&& self.playlists.wf()
        &&& self.artists.wf()
        &&& self.albums.wf()
        &&& self.index.wf()
        &&& index_lists_once(self.index@)
    }

    /// An empty cache.
    pub fn new() -> (c: SpotifyCache)
        ensures
            c.wf(),
            c@ == (CacheView {
                tracks: Map::empty(),
                user_playlists: None,
                playlists: Map::empty(),
                artists: Map::empty(),
                albums: Map::empty(),
                index: Map::empty(),
            }),
    {
        SpotifyCache {
            tracks: StringMap::new(),
            user_playlists: None,
            playlists: StringMap::new(),
            artists: StringMap::new(),
            albums: StringMap::new(),
            index: PlaylistIndex::new(),
        }
    }

    /// The cached track with id `id`.
    pub fn get_track(&self, id: &str) -> (t: Option<&Track>)
        requires
            self.wf(),
        ensures
            match t {
                Some(t) => self@.tracks.contains_key(id@) && *t == self@.tracks[id@],
                None => !self@.tracks.contains_key(id@),
            },
    {
        self.tracks.get(id)
    }

    /// Caches `track` under `id`.
    pub fn insert_track(&mut self, id: String, track: Track)
        requires
            old(self).wf(),
        ensures
            final(self).wf(),
            final(self)@ == (CacheView { tracks: old(self)@.tracks.insert(id@, track), ..old(self)@ }),
    {
        self.tracks.insert(id, track);
    }

    /// The user's playlists, when cached.
    pub fn get_user_playlists(&self) -> (p: Option<&Vec<Track>>)
        ensures
            match p {
                Some(v) => self@.user_playlists == Some(v@),
                None => self@.user_playlists is None,
            },
    {
        match &self.user_playlists {
            Some(v) => Some(v),
            None => None,
        }
    }

    /// Caches the user's playlists.
    pub fn save_user_playlists(&mut self, playlists: Vec<Track>)
        requires
            old(self).wf(),
        ensures
            final(self).wf(),
            final(self)@ == (CacheView { user_playlists: Some(playlists@), ..old(self)@ }),
    {
        self.user_playlists = Some(playlists);
    }

    /// The playlist `id` held in memory.
    pub fn get_playlist(&self, id: &str) -> (p: Option<&ListEntry>)
        requires
            self.wf(),
        ensures
            match p {
                Some(d) => self@.playlists.contains_key(id@) && *d == self@.playlists[id@],
                None => !self@.playlists.contains_key(id@),
            },
    {
        self.playlists.get(id)
    }

    /// Keeps a playlist that was read from disk: in memory, and in the index
    /// for each of its tracks.
    pub fn load_playlist(&mut self, id: &str, data: ListEntry)
        requires
            old(self).wf(),
        ensures
            final(self).wf(),
            final(self)@ == with_loaded_playlist(old(self)@, id@, data),
    {
        proof {
            law_index_lists_each_playlist_once(self@, id@, data);
        }
        self.index.add_playlist(id, &data.3);
        self.playlists.insert(id.to_owned(), data);
    }

    /// Saves a freshly fetched playlist: in memory, and the index lists it
    /// for exactly its current tracks.
    pub fn save_playlist(&mut self, id: &str, data: ListEntry)
        requires
            old(self).wf(),
        ensures
            final(self).wf(),
            final(self)@ == with_saved_playlist(old(self)@, id@, data),
            index_lists_once(final(self)@.index),
    {
        proof {
            law_index_lists_each_playlist_once(self@, id@, data);
        }
        self.index.replace_playlist(id, &data.3);
        self.playlists.insert(id.to_owned(), data);
    }

    /// The artist `id` held in memory.
    pub fn get_artist(&self, id: &str) -> (a: Option<&ArtistEntry>)
        requires
            self.wf(),
        ensures
            match a {
                Some(d) => self@.artists.contains_key(id@) && *d == self@.artists[id@],
                None => !self@.artists.contains_key(id@),
            },
    {
        self.artists.get(id)
    }

    /// Keeps artist `id` in memory (fetched, or read from disk).
    pub fn save_artist(&mut self, id: &str, data: ArtistEntry)
        requires
            old(self).wf(),
        ensures
            final(self).wf(),
            final(self)@ == (CacheView { artists: old(self)@.artists.insert(id@, data), ..old(self)@ }),
    {
        self.artists.insert(id.to_owned(), data);
    }

    /// The album `id` held in memory.
    pub fn get_album(&self, id: &str) -> (a: Option<&ListEntry>)
        requires
            self.wf(),
        ensures
            match a {
                Some(d) => self@.albums.contains_key(id@) && *d == self@.albums[id@],
                None => !self@.albums.contains_key(id@),
            },
    {
        self.albums.get(id)
    }

    /// Keeps album `id` in memory (fetched, or read from disk).
    pub fn save_album(&mut self, id: &str, data: ListEntry)
        requires
            old(self).wf(),
        ensures
            final(self).wf(),
            final(self)@ == (CacheView { albums: old(self)@.albums.insert(id@, data), ..old(self)@ }),
    {
        self.albums.insert(id.to_owned(), data);
    }

    /// Loads the playlists found on disk (id and contents), in order: each is
    /// kept in memory and recorded in the index.
    pub fn initialize_index(&mut self, loaded: Vec<(String, ListEntry)>)
        requires
            old(self).wf(),
        ensures
            final(self).wf(),
            final(self)@ == with_loaded_playlists(old(self)@, loaded@),
    {
        let ghost all = loaded@;
        let ghost start = self@;
        let mut src = loaded;
        let mut rev: Vec<(String, ListEntry)> = Vec::new();
        while src.len() > 0
            invariant
                src@.len() + rev@.len() == all.len(),
                src@ == all.take(src@.len() as int),
                forall|j: int| 0 <= j < rev@.len() ==> #[trigger] rev@[j] == all[all.len() - 1 - j],
            decreases src.len(),
        {
            let ghost n = src@.len() as int;
            let x = src.pop().unwrap();
            assert(x == all[n - 1]);
            assert(src@ =~= all.take(n - 1));
            rev.push(x);
        }
        while rev.len() > 0
            invariant
                self.wf(),
                rev@.len() <= all.len(),
                forall|j: int| 0 <= j < rev@.len() ==> #[trigger] rev@[j] == all[all.len() - 1 - j],
                self@ == with_loaded_playlists(start, all.take(all.len() - rev@.len())),
            decreases rev.len(),
        {
            let ghost k = all.len() - rev@.len();
            let (id, data) = rev.pop().unwrap();
            assert(all.take(k + 1).drop_last() =~= all.take(k));
            assert(all.take(k + 1).last() == all[k]);
            self.load_playlist(id.as_str(), data);
        }
        assert(all.take(all.len() as int) =~= all);
    }

    /// The playlists known to contain `track_id`, each named once.
    pub fn get_playlists_containing_track(&self, track_id: &str) -> (r: Vec<String>)
        requires
            self.wf(),
        ensures
            texts(r@) == playlists_of(self@.index, track_id@),
            texts(r@).no_duplicates(),
    {
        let r = self.index.playlists_containing(track_id);
        proof {
            if !self@.index.contains_key(track_id@) {
                assert(texts(r@) =~= Seq::<Seq<char>>::empty());
            }
        }
        r
    }
}


// ---------------------------------------------------------------------------
// Disk file names
// ---------------------------------------------------------------------------

/// A character of a user name as it appears in a file name: alphanumeric
/// characters stay, every other one becomes `_`.
pub open spec fn file_name_char(c: char) -> char {
    if is_alphanumeric(c) {
        c
    } else {
        '_'
    }
}

/// How one character of a snapshot id is written in a file name: `/` as
/// `_`, `+` as `-`, `=` dropped.
pub open spec fn snapshot_char(c: char) -> Seq<char> {
    if c == '/' {
        seq!['_']
    } else if c == '+' {
        seq!['-']
    } else if c == '=' {
        Seq::empty()
    } else {
        seq![c]
    }
}

/// A snapshot id as written in a file name.
pub open spec fn safe_snapshot(s: Seq<char>) -> Seq<char>
    decreases s.len(),
{
    if s.len() == 0 {
        Seq::empty()
    } else {
        safe_snapshot(s.drop_last()) + snapshot_char(s.last())
    }
}

/// The file name has the extension `json` (as `Path::extension` reads it:
/// the text after the last `.`, when that `.` is not the first character).
pub open spec fn has_json_extension(name: Seq<char>) -> bool {
    match rfind_char(name, '.') {
        Some(k) => k > 0 && name.skip(k + 1) == "json"@,
        None => false,
    }
}

/// The playlist id a cached playlist file is named after: the text before
/// the last `_` of a `.json` file name.
pub open spec fn listed_playlist_id(name: Seq<char>) -> Option<Seq<char>> {
    if has_json_extension(name) {
        match rfind_char(name, '_') {
            Some(p) => Some(name.take(p)),
            None => None,
        }
    } else {
        None
    }
}

impl SpotifyCache {
    /// The dashboard cache file of `username` for `category`:
    /// `.cache/user_NAME_CATEGORY.json`, every non-alphanumeric character of
    /// the name written as `_`.
    pub fn get_user_cache_path(username: &str, category: &str) -> (path: String)
        ensures
            path@ == ".cache/user_"@ + map_chars(username@, |c: char| file_name_char(c)) + "_"@ + category@
                + ".json"@,
    {
        let cs = chars_of(username);
        let mut path = ".cache/user_".to_owned();
        let ghost start = path@;
        let mut i: usize = 0;
        while i < cs.len()
            invariant
                i <= cs.len(),
                cs@ == username@,
                path@ == start + map_chars(cs@.take(i as int), |c: char| file_name_char(c)),
            decreases cs.len() - i,
        {
            let c = cs[i];
            let keep = char_is_alphanumeric(c);
            string_push(&mut path, if keep { c } else { '_' });
            i += 1;
            assert(path@ =~= start + map_chars(cs@.take(i as int), |c: char| file_name_char(c)));
        }
        assert(cs@.take(cs.len() as int) =~= cs@);
        push_str(&mut path, "_");
        push_str(&mut path, category);
        push_str(&mut path, ".json");
        path
    }
}

/// A snapshot id as written in a file name.
pub fn safe_snapshot_id(snapshot: &str) -> (r: String)
    ensures
        r@ == safe_snapshot(snapshot@),
{
    let cs = chars_of(snapshot);
    let mut r = String::new();
    let mut i: usize = 0;
    while i < cs.len()
        invariant
            i <= cs.len(),
            cs@ == snapshot@,
            r@ == safe_snapshot(cs@.take(i as int)),
        decreases cs.len() - i,
    {
        assert(cs@.take(i as int + 1).drop_last() =~= cs@.take(i as int));
        let c = cs[i];
        if c == '/' {
            string_push(&mut r, '_');
        } else if c == '+' {
            string_push(&mut r, '-');
        } else if c == '=' {
            assert(r@ =~= safe_snapshot(cs@.take(i as int)) + Seq::<char>::empty());
        } else {
            string_push(&mut r, c);
        }
        i += 1;
        assert(r@ =~= safe_snapshot(cs@.take(i as int)));
    }
    assert(cs@.take(cs.len() as int) =~= cs@);
    r
}

/// The disk file of playlist `id` at `snapshot`:
/// `.cache/playlists/ID_SNAPSHOT.json`.
pub fn playlist_cache_file(id: &str, snapshot: &str) -> (path: String)
    ensures
        path@ == ".cache/playlists/"@ + id@ + "_"@ + safe_snapshot(snapshot@) + ".json"@,
{
    let mut path = ".cache/playlists/".to_owned();
    push_str(&mut path, id);
    push_str(&mut path, "_");
    let safe = safe_snapshot_id(snapshot);
    push_str(&mut path, safe.as_str());
    push_str(&mut path, ".json");
    path
}

/// The disk file of artist `id`: `.cache/artists/ID.json`.
pub fn artist_cache_file(id: &str) -> (path: String)
    ensures
        path@ == ".cache/artists/"@ + id@ + ".json"@,
{
    let mut path = ".cache/artists/".to_owned();
    push_str(&mut path, id);
    push_str(&mut path, ".json");
    path
}

/// The disk file of album `id`: `.cache/albums/ID.json`.
pub fn album_cache_file(id: &str) -> (path: String)
    ensures
        path@ == ".cache/albums/"@ + id@ + ".json"@,
{
    let mut path = ".cache/albums/".to_owned();
    push_str(&mut path, id);
    push_str(&mut path, ".json");
    path
}

/// Whether a file in the playlist cache belongs to playlist `id` (its name
/// starts with the id) and is replaced when the playlist is saved again.
pub fn is_playlist_file_of(file_name: &str, id: &str) -> (r: bool)
    ensures
        r == has_prefix(file_name@, id@),
{
    starts_with(file_name, id)
}

/// The playlist id a file in the playlist cache is named after, when it is
/// a `.json` file whose name has a `_`.
pub fn cached_playlist_id(file_name: &str) -> (id: Option<String>)
    ensures
        match id {
            Some(i) => listed_playlist_id(file_name@) == Some(i@),
            None => listed_playlist_id(file_name@) is None,
        },
{
    proof {
        reveal_strlit("json");
    }
    let cs = chars_of(file_name);
    proof {
        crate::text::lemma_rfind_some_is_last(cs@, '.');
        crate::text::lemma_rfind_some_is_last(cs@, '_');
    }
    let json = match rfind_in(&cs, '.') {
        Some(k) => {
            if k > 0 {
                assert(k < cs.len());
                let ext = string_of_range(&cs, k + 1, cs.len());
                assert(cs@.subrange(k + 1, cs@.len() as int) =~= cs@.skip(k + 1));
                str_equal(ext.as_str(), "json")
            } else {
                false
            }
        },
        None => false,
    };
    if !json {
        return None;
    }
    match rfind_in(&cs, '_') {
        Some(p) => {
            assert(p < cs.len());
            let r = string_of_range(&cs, 0, p);
            assert(cs@.subrange(0, p as int) =~= cs@.take(p as int));
            Some(r)
        },
        None => None,
    }
}

/// What a save writes is what the next read of the same id gives, and a
/// save of one playlist leaves the cached copies of the others alone.
pub proof fn law_saved_playlist_is_read_back(v: CacheView, id: Seq<char>, data: ListEntry, other: Seq<char>)
    ensures
        with_saved_playlist(v, id, data).playlists.contains_key(id),
        with_saved_playlist(v, id, data).playlists[id] == data,
        other != id ==> with_saved_playlist(v, id, data).playlists.contains_key(other) == v.playlists.contains_key(
            other,
        ),
        other != id && v.playlists.contains_key(other) ==> with_saved_playlist(v, id, data).playlists[other]
            == v.playlists[other],
{
}

// ---------------------------------------------------------------------------
// Laws of the index
// ---------------------------------------------------------------------------

proof fn lemma_push_contains(s: Seq<Seq<char>>, a: Seq<char>, q: Seq<char>)
    ensures
        s.push(a).contains(q) == (s.contains(q) || q == a),
{
    if s.push(a).contains(q) {
        let k = choose|k: int| 0 <= k < s.push(a).len() && s.push(a)[k] == q;
        if k < s.len() {
            assert(s[k] == q);
        }
    }
    if s.contains(q) {
        let k = choose|k: int| 0 <= k < s.len() && s[k] == q;
        assert(s.push(a)[k] == q);
    }
    assert(s.push(a)[s.len() as int] == a);
}

proof fn lemma_without_contains(l: Seq<Seq<char>>, x: Seq<char>, q: Seq<char>)
    ensures
        without(l, x).contains(q) == (l.contains(q) && q != x),
    decreases l.len(),
{
    if l.len() > 0 {
        lemma_without_contains(l.drop_last(), x, q);
        assert(l =~= l.drop_last().push(l.last()));
        lemma_push_contains(l.drop_last(), l.last(), q);
        if l.last() != x {
            lemma_push_contains(without(l.drop_last(), x), l.last(), q);
        }
    }
}

proof fn lemma_with_playlist_membership(
    m: Map<Seq<char>, Seq<Seq<char>>>,
    p: Seq<char>,
    ids: Seq<Seq<char>>,
    t: Seq<char>,
    q: Seq<char>,
)
    ensures
        playlists_of(with_playlist(m, p, ids), t).contains(q) == (playlists_of(m, t).contains(q) || (q
            == p && ids.contains(t))),
    decreases ids.len(),
{
    if ids.len() > 0 {
        lemma_with_playlist_membership(m, p, ids.drop_last(), t, q);
        if ids.drop_last().contains(t) {
            let k = choose|k: int| 0 <= k < ids.drop_last().len() && ids.drop_last()[k] == t;
            assert(ids[k] == t);
        }
        if ids.contains(t) && !ids.drop_last().contains(t) {
            assert(ids.last() == t) by {
                let k = choose|k: int| 0 <= k < ids.len() && ids[k] == t;
                if k < ids.len() - 1 {
                    assert(ids.drop_last()[k] == t);
                }
            }
        }
        let prev = with_playlist(m, p, ids.drop_last());
        let cur = playlists_of(prev, ids.last());
        if !cur.contains(p) {
            if cur.push(p).contains(q) {
                let k = choose|k: int| 0 <= k < cur.push(p).len() && cur.push(p)[k] == q;
                if k < cur.len() {
                    assert(cur[k] == q);
                }
            }
            if cur.contains(q) {
                let k = choose|k: int| 0 <= k < cur.len() && cur[k] == q;
                assert(cur.push(p)[k] == q);
            }
            assert(cur.push(p)[cur.len() as int] == p);
        }
    }
}

/// After a playlist is (re)loaded into the index, it is listed for exactly
/// the tracks it now holds, and the listings of every other playlist are
/// unchanged.
pub proof fn law_replace_lists_exactly_current_tracks(
    m: Map<Seq<char>, Seq<Seq<char>>>,
    playlist: Seq<char>,
    ids: Seq<Seq<char>>,
    track: Seq<char>,
    other: Seq<char>,
)
    ensures
        playlists_of(with_playlist(without_playlist(m, playlist), playlist, ids), track).contains(playlist)
            == ids.contains(track),
        other != playlist ==> playlists_of(
            with_playlist(without_playlist(m, playlist), playlist, ids),
            track,
        ).contains(other) == playlists_of(m, track).contains(other),
{
    let w = without_playlist(m, playlist);
    lemma_with_playlist_membership(w, playlist, ids, track, playlist);
    lemma_with_playlist_membership(w, playlist, ids, track, other);
    if m.contains_key(track) {
        lemma_without_contains(m[track], playlist, playlist);
        lemma_without_contains(m[track], playlist, other);
    }
}

/// Adding a playlist only adds: a track keeps every playlist it was listed
/// with, and gains the added one exactly when the playlist holds it.
pub proof fn law_add_keeps_and_adds(
    m: Map<Seq<char>, Seq<Seq<char>>>,
    playlist: Seq<char>,
    ids: Seq<Seq<char>>,
    track: Seq<char>,
    q: Seq<char>,
)
    ensures
        playlists_of(with_playlist(m, playlist, ids), track).contains(q) == (playlists_of(m, track).contains(
            q,
        ) || (q == playlist && ids.contains(track))),
{
    lemma_with_playlist_membership(m, playlist, ids, track, q);
}


/// Every track's listing names each playlist at most once.
pub open spec fn index_lists_once(ix: Map<Seq<char>, Seq<Seq<char>>>) -> bool {
    forall|t: Seq<char>| ix.contains_key(t) ==> (#[trigger] ix[t]).no_duplicates()
}

proof fn lemma_push_unique(s: Seq<Seq<char>>, a: Seq<char>)
    requires
        s.no_duplicates(),
        !s.contains(a),
    ensures
        s.push(a).no_duplicates(),
{
    assert forall|i: int, j: int| 0 <= i < s.push(a).len() && 0 <= j < s.push(a).len() && i != j implies s.push(
        a,
    )[i] != s.push(a)[j] by {
        if i == s.len() && j < s.len() {
            assert(s[j] == s.push(a)[j]);
        } else if j == s.len() && i < s.len() {
            assert(s[i] == s.push(a)[i]);
        }
    }
}

proof fn lemma_with_playlist_once(m: Map<Seq<char>, Seq<Seq<char>>>, p: Seq<char>, ids: Seq<Seq<char>>)
    requires
        index_lists_once(m),
    ensures
        index_lists_once(with_playlist(m, p, ids)),
    decreases ids.len(),
{
    if ids.len() > 0 {
        let prev = with_playlist(m, p, ids.drop_last());
        lemma_with_playlist_once(m, p, ids.drop_last());
        let cur = playlists_of(prev, ids.last());
        assert(cur.no_duplicates());
        if !cur.contains(p) {
            lemma_push_unique(cur, p);
        }
        let next = with_playlist(m, p, ids);
        assert forall|t: Seq<char>| next.contains_key(t) implies (#[trigger] next[t]).no_duplicates() by {
            if t != ids.last() {
                assert(next[t] == prev[t]);
            }
        }
    }
}

proof fn lemma_without_unique(l: Seq<Seq<char>>, x: Seq<char>)
    requires
        l.no_duplicates(),
    ensures
        without(l, x).no_duplicates(),
    decreases l.len(),
{
    if l.len() > 0 {
        assert(l.drop_last().no_duplicates());
        lemma_without_unique(l.drop_last(), x);
        if l.last() != x {
            lemma_without_contains(l.drop_last(), x, l.last());
            if l.drop_last().contains(l.last()) {
                let k = choose|k: int| 0 <= k < l.drop_last().len() && l.drop_last()[k] == l.last();
                assert(l[k] == l[l.len() - 1]);
            }
            lemma_push_unique(without(l.drop_last(), x), l.last());
        }
    }
}

/// The index never lists a playlist twice for one track: an empty index does
/// not, and saving or loading a playlist keeps it so.
pub proof fn law_index_lists_each_playlist_once(v: CacheView, id: Seq<char>, data: ListEntry)
    requires
        index_lists_once(v.index),
    ensures
        index_lists_once(Map::<Seq<char>, Seq<Seq<char>>>::empty()),
        index_lists_once(with_saved_playlist(v, id, data).index),
        index_lists_once(with_loaded_playlist(v, id, data).index),
{
    let ids = track_ids(tracks_view(data.3@));
    let w = without_playlist(v.index, id);
    assert forall|t: Seq<char>| w.contains_key(t) implies (#[trigger] w[t]).no_duplicates() by {
        lemma_without_unique(v.index[t], id);
    }
    lemma_with_playlist_once(w, id, ids);
    lemma_with_playlist_once(v.index, id, ids);
}

} // verus!
