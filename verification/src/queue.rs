//! The playback queue: the list being played through, the position in it,
//! wrap-around stepping, and when to ask for recommendations.
use vstd::prelude::*;
use crate::providers::{Track, TrackView, duplicate_tracks, tracks_view};
use crate::text::str_equal;

verus! {

/// The queue as the contracts see it.
pub struct QueueView {
    pub tracks: Seq<TrackView>,
    pub current: int,
}

/// The tracks queued for playback and the index of the one playing.
pub struct PlaybackQueue {
    tracks: Vec<Track>,
    current_index: usize,
}

impl View for PlaybackQueue {
    type V = QueueView;

    closed spec fn view(&self) -> QueueView {
        QueueView { tracks: tracks_view(self.tracks@), current: self.current_index as int }
    }
}

/// The index is that of a queued track, or 0 for an empty queue.
pub open spec fn queue_wf(q: QueueView) -> bool {
    if q.tracks.len() == 0 {
        q.current == 0
    } else {
        0 <= q.current < q.tracks.len()
    }
}

/// Moving on: past the last track the queue starts again at the first.
pub open spec fn advanced(q: QueueView) -> QueueView {
    if q.tracks.len() == 0 {
        q
    } else if q.current + 1 >= q.tracks.len() {
        QueueView { current: 0, ..q }
    } else {
        QueueView { current: q.current + 1, ..q }
    }
}

/// Moving back: before the first track the queue goes to the last.
pub open spec fn went_back(q: QueueView) -> QueueView {
    if q.tracks.len() == 0 {
        q
    } else if q.current > 0 {
        QueueView { current: q.current - 1, ..q }
    } else {
        QueueView { current: q.tracks.len() - 1, ..q }
    }
}

/// The id of the track at the queue's position.
pub open spec fn current_id(q: QueueView) -> Seq<char> {
    q.tracks[q.current].id
}

/// Index of the last track in `ts` with the given id.
pub open spec fn last_index_of_id(ts: Seq<TrackView>, id: Seq<char>) -> Option<int>
    decreases ts.len(),
{
    if ts.len() == 0 {
        None
    } else if ts.last().id == id {
        Some(ts.len() - 1)
    } else {
        last_index_of_id(ts.drop_last(), id)
    }
}

/// The queue made from a list of tracks when `id` is chosen in it: the
/// list, positioned at the last track with that id, or at the first when
/// none has it.
pub open spec fn queue_from_source(ts: Seq<TrackView>, id: Seq<char>) -> QueueView {
    QueueView {
        tracks: ts,
        current: match last_index_of_id(ts, id) {
            Some(k) => k,
            None => 0,
        },
    }
}

/// Recommendations are wanted when the track playing is the last or the
/// next-to-last one; they are seeded by the last queued track.
pub open spec fn wants_recommendations(q: QueueView) -> bool {
    q.tracks.len() > 0 && q.current + 2 >= q.tracks.len()
}

proof fn lemma_last_index_in_range(ts: Seq<TrackView>, id: Seq<char>)
    ensures
        match last_index_of_id(ts, id) {
            Some(k) => 0 <= k < ts.len() && ts[k].id == id,
            None => true,
        },
    decreases ts.len(),
{
    if ts.len() > 0 && ts.last().id != id {
        lemma_last_index_in_range(ts.drop_last(), id);
    }
}

impl PlaybackQueue {
    #[verifier::type_invariant]
    closed spec fn inv(self) -> bool {
        queue_wf(self@)
    }

    /// An empty queue.
    pub fn new() -> (q: PlaybackQueue)
        ensures
            q@.tracks.len() == 0,
            q@.current == 0,
            queue_wf(q@),
    {
        PlaybackQueue { tracks: Vec::new(), current_index: 0 }
    }

    /// Number of queued tracks.
    pub fn len(&self) -> (n: usize)
        ensures
            n == self@.tracks.len(),
    {
        self.tracks.len()
    }

    /// Index of the track playing.
    pub fn current_index(&self) -> (i: usize)
        ensures
            i == self@.current,
            queue_wf(self@),
    {
        proof {
            use_type_invariant(self);
        }
        self.current_index
    }

    /// The queued tracks.
    pub fn tracks(&self) -> (ts: &Vec<Track>)
        ensures
            tracks_view(ts@) == self@.tracks,
    {
        &self.tracks
    }

    /// Queues a copy of `source` positioned at the last track with id
    /// `track_id` (the first when none has it). An empty `source` leaves the
    /// queue as it was and gives `false`.
    pub fn start_from(&mut self, source: &Vec<Track>, track_id: &str) -> (started: bool)
        ensures
            started == (source@.len() > 0),
            started ==> final(self)@ == queue_from_source(tracks_view(source@), track_id@),
            !started ==> final(self)@ == old(self)@,
            queue_wf(final(self)@),
    {
        proof {
            use_type_invariant(&*self);
        }
        if source.len() == 0 {
            return false;
        }
        let tracks = duplicate_tracks(source);
        let ghost ts = tracks_view(source@);
        let mut index: usize = 0;
        let mut found = false;
        let mut i: usize = 0;
        while i < source.len()
            invariant
                i <= source.len(),
                ts == tracks_view(source@),
                found ==> last_index_of_id(ts.take(i as int), track_id@) == Some(index as int),
                !found ==> last_index_of_id(ts.take(i as int), track_id@) is None && index == 0,
            decreases source.len() - i,
        {
            assert(ts.take(i as int + 1).drop_last() =~= ts.take(i as int));
            assert(ts.take(i as int + 1).last() == source@[i as int]@);
            if str_equal(source[i].id.as_str(), track_id) {
                index = i;
                found = true;
            }
            i += 1;
        }
        assert(ts.take(source.len() as int) =~= ts);
        proof {
            lemma_last_index_in_range(ts, track_id@);
        }
        *self = PlaybackQueue { tracks, current_index: index };
        true
    }

    /// Replaces the queue by the single track `t`.
    pub fn play_single(&mut self, t: Track)
        ensures
            final(self)@.tracks == seq![t@],
            final(self)@.current == 0,
            queue_wf(final(self)@),
    {
        let mut v: Vec<Track> = Vec::new();
        v.push(t);
        *self = PlaybackQueue { tracks: v, current_index: 0 };
        assert(self@.tracks =~= seq![t@]);
    }

    /// Moves to the next track, wrapping around to the first after the last,
    /// and returns its id; an empty queue gives `None`.
    pub fn advance(&mut self) -> (id: Option<String>)
        ensures
            final(self)@ == advanced(old(self)@),
            queue_wf(final(self)@),
            match id {
                Some(s) => old(self)@.tracks.len() > 0 && s@ == current_id(final(self)@),
                None => old(self)@.tracks.len() == 0,
            },
    {
        proof {
            use_type_invariant(&*self);
        }
        if self.tracks.len() == 0 {
            return None;
        }
        if self.current_index + 1 >= self.tracks.len() {
            self.current_index = 0;
        } else {
            self.current_index = self.current_index + 1;
        }
        Some(self.tracks[self.current_index].id.clone())
    }

    /// Moves to the previous track, wrapping around to the last before the
    /// first, and returns its id; an empty queue gives `None`.
    pub fn go_back(&mut self) -> (id: Option<String>)
        ensures
            final(self)@ == went_back(old(self)@),
            queue_wf(final(self)@),
            match id {
                Some(s) => old(self)@.tracks.len() > 0 && s@ == current_id(final(self)@),
                None => old(self)@.tracks.len() == 0,
            },
    {
        proof {
            use_type_invariant(&*self);
        }
        if self.tracks.len() == 0 {
            return None;
        }
        if self.current_index > 0 {
            self.current_index = self.current_index - 1;
        } else {
            self.current_index = self.tracks.len() - 1;
        }
        Some(self.tracks[self.current_index].id.clone())
    }

    /// The title and artist of the last queued track when the one playing is
    /// the last or next-to-last, to seed recommendations.
    pub fn recommendation_seed(&self) -> (seed: Option<(String, String)>)
        ensures
            match seed {
                Some((title, artist)) => wants_recommendations(self@) && title@ == self@.tracks.last().title
                    && artist@ == self@.tracks.last().artist,
                None => !wants_recommendations(self@),
            },
            seed is Some <==> (self@.tracks.len() > 0 && self@.current + 2 >= self@.tracks.len()),
    {
        proof {
            use_type_invariant(self);
            law_recommendations_near_the_end(self@);
        }
        let len = self.tracks.len();
        if len > 0 && len - self.current_index <= 2 {
            let last = &self.tracks[len - 1];
            Some((last.title.clone(), last.artist.clone()))
        } else {
            None
        }
    }

    /// Appends tracks at the end, keeping the position.
    pub fn extend(&mut self, more: Vec<Track>)
        ensures
            final(self)@.tracks == old(self)@.tracks + tracks_view(more@),
            final(self)@.current == old(self)@.current,
            queue_wf(final(self)@),
    {
        proof {
            use_type_invariant(&*self);
        }
        let mut more = more;
        let ghost added = tracks_view(more@);
        let ghost before = self@.tracks;
        let mut ts = duplicate_tracks(&self.tracks);
        ts.append(&mut more);
        assert(tracks_view(ts@) =~= before + added);
        self.tracks = ts;
    }

    /// The id of the track after the one playing, if there is one (no
    /// wrap-around).
    pub fn next_to_preload(&self) -> (id: Option<String>)
        ensures
            match id {
                Some(s) => self@.current + 1 < self@.tracks.len() && s@ == self@.tracks[self@.current
                    + 1].id,
                None => self@.current + 1 >= self@.tracks.len(),
            },
    {
        proof {
            use_type_invariant(self);
        }
        if self.tracks.len() > 0 && self.current_index < self.tracks.len() - 1 {
            Some(self.tracks[self.current_index + 1].id.clone())
        } else {
            None
        }
    }
}

/// Stepping keeps the queue positioned on a queued track.
pub proof fn law_stepping_keeps_position_valid(q: QueueView)
    requires
        queue_wf(q),
    ensures
        queue_wf(advanced(q)),
        queue_wf(went_back(q)),
        advanced(q).tracks == q.tracks,
        went_back(q).tracks == q.tracks,
{
}

/// Going back undoes moving on, and moving on undoes going back.
pub proof fn law_back_undoes_advance(q: QueueView)
    requires
        queue_wf(q),
    ensures
        went_back(advanced(q)) == q,
        advanced(went_back(q)) == q,
{
}

/// Choosing a track from a non-empty list queues that list positioned on a
/// track with the chosen id whenever the list holds one.
pub proof fn law_start_plays_chosen(ts: Seq<TrackView>, id: Seq<char>)
    requires
        ts.len() > 0,
    ensures
        queue_wf(queue_from_source(ts, id)),
        (exists|i: int| 0 <= i < ts.len() && ts[i].id == id) ==> current_id(queue_from_source(ts, id))
            == id,
{
    lemma_last_index_in_range(ts, id);
    lemma_last_index_found(ts, id);
}

proof fn lemma_last_index_found(ts: Seq<TrackView>, id: Seq<char>)
    ensures
        (exists|i: int| 0 <= i < ts.len() && ts[i].id == id) ==> last_index_of_id(ts, id) is Some,
    decreases ts.len(),
{
    if ts.len() > 0 && ts.last().id != id {
        lemma_last_index_found(ts.drop_last(), id);
        if exists|i: int| 0 <= i < ts.len() && ts[i].id == id {
            let i = choose|i: int| 0 <= i < ts.len() && ts[i].id == id;
            assert(ts.drop_last()[i] == ts[i]);
        }
    }
}


/// Recommendations are wanted exactly when the queue holds a track and the
/// one playing is the last or the next-to-last; a queue of one track always
/// wants them (its only track is the last).
pub proof fn law_recommendations_near_the_end(q: QueueView)
    ensures
        wants_recommendations(q) <==> (q.tracks.len() > 0 && q.current + 2 >= q.tracks.len()),
        q.tracks.len() == 1 && q.current == 0 ==> wants_recommendations(q),
        q.tracks.len() > 0 && q.current == q.tracks.len() - 1 ==> wants_recommendations(q),
        q.tracks.len() > 0 && q.current == q.tracks.len() - 2 ==> wants_recommendations(q),
        q.current + 2 < q.tracks.len() ==> !wants_recommendations(q),
{
}

} // verus!
