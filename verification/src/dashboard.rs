//! The dashboard loader's decisions: which list each feed shows, which
//! feeds are fetched again and when, and which of the user's playlists hold
//! the track that is playing.
use vstd::prelude::*;
use crate::api::{contains_track, strip_track_uri};
use crate::cache::{contains_text, texts};
use crate::providers::{Track, duplicate_tracks};
use crate::text::has_prefix;

verus! {

/// The first wait before fetching failed feeds again.
pub const RETRY_BASE_SECS: u64 = 5;

/// The longest wait between attempts.
pub const RETRY_MAX_SECS: u64 = 60;

/// The tracks a feed shows: the fresh list when the fetch succeeded, else the
/// list cached on disk, else nothing.
pub fn feed_tracks(fresh: Option<Vec<Track>>, cached: Option<Vec<Track>>) -> (ts: Vec<Track>)
    ensures
        ts@ == match fresh {
            Some(f) => f@,
            None => match cached {
                Some(c) => c@,
                None => Seq::<Track>::empty(),
            },
        },
{
    match fresh {
        Some(f) => f,
        None => match cached {
            Some(c) => c,
            None => Vec::new(),
        },
    }
}

/// The feeds still to fetch and the wait before the next attempt.
#[derive(Clone, Copy, Debug, PartialEq, Eq, Structural)]
pub struct RetryPlan {
    pub recent: bool,
    pub playlists: bool,
    pub artists: bool,
    pub delay_secs: u64,
}

/// The wait lies between the base and the maximum.
pub open spec fn retry_delay_in_range(p: RetryPlan) -> bool {
    RETRY_BASE_SECS <= p.delay_secs <= RETRY_MAX_SECS
}

/// No feed is left to fetch.
pub open spec fn all_fetched(p: RetryPlan) -> bool {
    !p.recent && !p.playlists && !p.artists
}

/// The plan after an attempt: a feed stays pending unless its fetch
/// succeeded; the wait doubles (at most a minute) unless all are done.
pub open spec fn after_attempt(p: RetryPlan, recent_ok: bool, playlists_ok: bool, artists_ok: bool) -> RetryPlan {
    let q = RetryPlan {
        recent: p.recent && !recent_ok,
        playlists: p.playlists && !playlists_ok,
        artists: p.artists && !artists_ok,
        ..p
    };
    if all_fetched(q) {
        q
    } else {
        RetryPlan {
            delay_secs: if 2 * p.delay_secs < RETRY_MAX_SECS {
                (2 * p.delay_secs) as u64
            } else {
                RETRY_MAX_SECS
            },
            ..q
        }
    }
}

impl RetryPlan {
    /// The plan after the first load: the feeds that failed, retried after
    /// five seconds; none when every feed loaded.
    pub fn after_first_load(recent_failed: bool, playlists_failed: bool, artists_failed: bool) -> (p: Option<
        RetryPlan,
    >)
        ensures
            match p {
                Some(p) => (recent_failed || playlists_failed || artists_failed) && p == (RetryPlan {
                    recent: recent_failed,
                    playlists: playlists_failed,
                    artists: artists_failed,
                    delay_secs: RETRY_BASE_SECS,
                }),
                None => !(recent_failed || playlists_failed || artists_failed),
            },
    {
        if recent_failed || playlists_failed || artists_failed {
            Some(
                RetryPlan {
                    recent: recent_failed,
                    playlists: playlists_failed,
                    artists: artists_failed,
                    delay_secs: RETRY_BASE_SECS,
                },
            )
        } else {
            None
        }
    }

    /// Records an attempt's outcome per feed and says whether every feed is
    /// now loaded (the retries stop).
    pub fn record_attempt(&mut self, recent_ok: bool, playlists_ok: bool, artists_ok: bool) -> (done: bool)
        requires
            retry_delay_in_range(*old(self)),
        ensures
            *final(self) == after_attempt(*old(self), recent_ok, playlists_ok, artists_ok),
            done == all_fetched(*final(self)),
            retry_delay_in_range(*final(self)),
    {
        self.recent = self.recent && !recent_ok;
        self.playlists = self.playlists && !playlists_ok;
        self.artists = self.artists && !artists_ok;
        let done = !self.recent && !self.playlists && !self.artists;
        if !done {
            let doubled = self.delay_secs * 2;
            self.delay_secs = if doubled < RETRY_MAX_SECS {
                doubled
            } else {
                RETRY_MAX_SECS
            };
        }
        done
    }
}

/// The playing track's id without its `spotify:track:` prefix.
pub open spec fn clean_track_id(id: Seq<char>) -> Seq<char> {
    if has_prefix(id, "spotify:track:"@) {
        id.skip(14)
    } else {
        id
    }
}

/// Whether a playlist's tracks include the playing track (`current_id`,
/// with or without its URI prefix); never when nothing is playing.
pub fn playlist_has_current(tracks: &Vec<Track>, current_id: &str) -> (hit: bool)
    ensures
        hit == (clean_track_id(current_id@).len() > 0 && exists|k: int|
            0 <= k < tracks@.len() && clean_track_id(tracks@[k].id@) == clean_track_id(current_id@)),
{
    let clean = strip_track_uri(current_id);
    if clean.as_str().is_empty() {
        false
    } else {
        contains_track(tracks, clean.as_str())
    }
}

/// For each playlist row (by id), whether it is one of `matches` and gets
/// the "present" mark.
pub fn rows_to_mark(row_ids: &Vec<String>, matches: &Vec<String>) -> (marks: Vec<bool>)
    ensures
        marks@.len() == row_ids@.len(),
        forall|i: int| 0 <= i < row_ids@.len() ==> marks@[i] == texts(matches@).contains(#[trigger] row_ids@[i]@),
{
    let mut marks: Vec<bool> = Vec::new();
    let mut i: usize = 0;
    while i < row_ids.len()
        invariant
            i <= row_ids.len(),
            marks@.len() == i,
            forall|j: int| 0 <= j < i ==> marks@[j] == texts(matches@).contains(#[trigger] row_ids@[j]@),
        decreases row_ids.len() - i,
    {
        marks.push(contains_text(matches, row_ids[i].as_str()));
        i += 1;
    }
    marks
}

/// The playlists to crawl in the background: the user's playlists when they
/// were fetched fresh, none when they came from the disk cache.
pub fn crawl_list(playlists: &Vec<Track>, playlists_failed: bool) -> (ts: Vec<Track>)
    ensures
        playlists_failed ==> ts@.len() == 0,
        !playlists_failed ==> crate::providers::tracks_view(ts@) == crate::providers::tracks_view(playlists@),
{
    if playlists_failed {
        Vec::new()
    } else {
        duplicate_tracks(playlists)
    }
}

/// A feed that has loaded is never fetched again, and the retries stop
/// exactly when every feed has loaded.
pub proof fn law_loaded_feeds_stay_loaded(p: RetryPlan, recent_ok: bool, playlists_ok: bool, artists_ok: bool)
    ensures
        !p.recent ==> !after_attempt(p, recent_ok, playlists_ok, artists_ok).recent,
        !p.playlists ==> !after_attempt(p, recent_ok, playlists_ok, artists_ok).playlists,
        !p.artists ==> !after_attempt(p, recent_ok, playlists_ok, artists_ok).artists,
        recent_ok && playlists_ok && artists_ok ==> all_fetched(after_attempt(p, recent_ok, playlists_ok, artists_ok)),
{
}

/// The wait between attempts never drops below five seconds nor exceeds a
/// minute, and it never shrinks.
pub proof fn law_retry_delay(p: RetryPlan, recent_ok: bool, playlists_ok: bool, artists_ok: bool)
    requires
        retry_delay_in_range(p),
    ensures
        retry_delay_in_range(after_attempt(p, recent_ok, playlists_ok, artists_ok)),
        p.delay_secs <= after_attempt(p, recent_ok, playlists_ok, artists_ok).delay_secs,
{
}

} // verus!
