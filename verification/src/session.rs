//! The audio-session manager: when to build a playback engine, how long to
//! wait after a failed build, which events end a session, and what to resume
//! once a new engine is up. The caller performs each step (building the
//! engine, sleeping, fetching tokens) and reports back.
use vstd::prelude::*;
use crate::player::PlaybackEvent;
use crate::text::str_equal;

verus! {

/// Seconds to wait after the first failed engine build.
pub const BACKOFF_BASE_SECS: u64 = 5;

/// The longest wait between engine builds.
pub const BACKOFF_MAX_SECS: u64 = 60;

/// Seconds to wait before rebuilding a session the engine lost.
pub const LOST_SESSION_DELAY_SECS: u64 = 2;

/// The wait that follows a wait of `b` seconds: doubled, at most a minute.
pub open spec fn next_backoff(b: u64) -> u64 {
    if 2 * b < BACKOFF_MAX_SECS {
        (2 * b) as u64
    } else {
        BACKOFF_MAX_SECS
    }
}

/// The wait after `n` consecutive failed builds.
pub open spec fn backoff_after_failures(n: nat) -> u64
    decreases n,
{
    if n == 0 {
        BACKOFF_BASE_SECS
    } else {
        next_backoff(backoff_after_failures((n - 1) as nat))
    }
}

/// What happens while an engine is live.
#[derive(Clone, Copy, Debug, PartialEq, Eq, Structural)]
pub enum SessionEvent {
    /// The engine reported a playback event.
    Player(PlaybackEvent),
    /// The engine's connection died.
    SessionLost,
    /// The engine's event channel closed.
    ChannelClosed,
    /// The access token is about to expire.
    TokenExpiring,
}

/// What the caller does after an event.
#[derive(Clone, Copy, Debug, PartialEq, Eq, Structural)]
pub enum ListenStep {
    /// Keep listening.
    Continue,
    /// The track ended: play the next one in the queue.
    AdvanceQueue,
    /// Tear the engine down and build a new one.
    Rebuild,
    /// Stop managing the session.
    Shutdown,
}

/// The manager's state as the contracts see it.
pub struct SessionView {
    pub backoff_secs: u64,
    pub resume_track: Option<Seq<char>>,
    pub resume_position_ms: u32,
    pub position_ms: u32,
    pub lost: bool,
}

/// The manager's state: the next wait, the track to resume after a rebuild,
/// the last reported position and whether the live session was lost.
pub struct SessionManager {
    backoff_secs: u64,
    resume_track: Option<String>,
    resume_position_ms: u32,
    position_ms: u32,
    lost: bool,
}

impl View for SessionManager {
    type V = SessionView;

    closed spec fn view(&self) -> SessionView {
        SessionView {
            backoff_secs: self.backoff_secs,
            resume_track: match self.resume_track {
                Some(t) => Some(t@),
                None => None,
            },
            resume_position_ms: self.resume_position_ms,
            position_ms: self.position_ms,
            lost: self.lost,
        }
    }
}

/// The wait lies between the base and the maximum.
pub open spec fn backoff_in_range(v: SessionView) -> bool {
    BACKOFF_BASE_SECS <= v.backoff_secs <= BACKOFF_MAX_SECS
}

/// A new engine is up: the wait goes back to the base, the position to zero,
/// and the track to resume (if any) is played, seeking only to a position
/// past zero.
pub open spec fn after_start(v: SessionView) -> (SessionView, Option<(Seq<char>, Option<u32>)>) {
    (
        SessionView { backoff_secs: BACKOFF_BASE_SECS, position_ms: 0, lost: false, ..v },
        match v.resume_track {
            Some(t) => Some((t, if v.resume_position_ms > 0 { Some(v.resume_position_ms) } else { None })),
            None => None,
        },
    )
}

/// An engine build failed: wait the current time, then the next one.
pub open spec fn after_failure(v: SessionView) -> (SessionView, u64) {
    (SessionView { backoff_secs: next_backoff(v.backoff_secs), ..v }, v.backoff_secs)
}

/// The reaction to an event while an engine is live.
pub open spec fn after_event(v: SessionView, ev: SessionEvent) -> (SessionView, ListenStep) {
    match ev {
        SessionEvent::Player(PlaybackEvent::Playing { position_ms, .. }) => (
            SessionView { position_ms, ..v },
            ListenStep::Continue,
        ),
        SessionEvent::Player(PlaybackEvent::Progress { position_ms, .. }) => (
            SessionView { position_ms, ..v },
            ListenStep::Continue,
        ),
        SessionEvent::Player(PlaybackEvent::Paused { position_ms, .. }) => (
            SessionView { position_ms, ..v },
            ListenStep::Continue,
        ),
        SessionEvent::Player(PlaybackEvent::Stopped) => (v, ListenStep::Continue),
        SessionEvent::Player(PlaybackEvent::EndOfTrack) => (v, ListenStep::AdvanceQueue),
        SessionEvent::SessionLost => (SessionView { lost: true, ..v }, ListenStep::Rebuild),
        SessionEvent::TokenExpiring => (SessionView { lost: false, ..v }, ListenStep::Rebuild),
        SessionEvent::ChannelClosed => (v, ListenStep::Shutdown),
    }
}

/// The engine is torn down for a rebuild: what was playing (and where) is
/// remembered for the next engine, and the wait before the rebuild is two
/// seconds after a lost session, none after a planned one.
pub open spec fn after_teardown(v: SessionView, still_playing: bool, playing_track: Option<Seq<char>>) -> (
    SessionView,
    u64,
) {
    (
        if still_playing {
            SessionView { resume_track: playing_track, resume_position_ms: v.position_ms, ..v }
        } else {
            SessionView { resume_track: None, resume_position_ms: 0, ..v }
        },
        if v.lost {
            LOST_SESSION_DELAY_SECS
        } else {
            0
        },
    )
}

impl SessionManager {
    /// Nothing to resume; the first failed build waits five seconds.
    pub fn new() -> (m: SessionManager)
        ensures
            m@ == (SessionView {
                backoff_secs: BACKOFF_BASE_SECS,
                resume_track: None,
                resume_position_ms: 0,
                position_ms: 0,
                lost: false,
            }),
    {
        SessionManager {
            backoff_secs: BACKOFF_BASE_SECS,
            resume_track: None,
            resume_position_ms: 0,
            position_ms: 0,
            lost: false,
        }
    }

    /// A new engine is up. Returns the track to play again and the position
    /// to seek to, if a track was interrupted by the last rebuild.
    pub fn engine_started(&mut self) -> (plan: Option<(String, Option<u32>)>)
        ensures
            final(self)@ == after_start(old(self)@).0,
            match plan {
                Some((t, seek)) => after_start(old(self)@).1 == Some((t@, seek)),
                None => after_start(old(self)@).1 is None,
            },
    {
        self.backoff_secs = BACKOFF_BASE_SECS;
        self.position_ms = 0;
        self.lost = false;
        match &self.resume_track {
            Some(t) => {
                let seek = if self.resume_position_ms > 0 {
                    Some(self.resume_position_ms)
                } else {
                    None
                };
                Some((t.clone(), seek))
            },
            None => None,
        }
    }

    /// An engine build failed. Returns the seconds to wait before fetching a
    /// fresh token and trying again.
    pub fn engine_failed(&mut self) -> (wait_secs: u64)
        requires
            backoff_in_range(old(self)@),
        ensures
            (final(self)@, wait_secs) == after_failure(old(self)@),
            backoff_in_range(final(self)@),
    {
        let wait = self.backoff_secs;
        let doubled = self.backoff_secs * 2;
        self.backoff_secs = if doubled < BACKOFF_MAX_SECS {
            doubled
        } else {
            BACKOFF_MAX_SECS
        };
        wait
    }

    /// Reacts to an event of the live engine.
    pub fn on_event(&mut self, ev: SessionEvent) -> (step: ListenStep)
        ensures
            (final(self)@, step) == after_event(old(self)@, ev),
    {
        match ev {
            SessionEvent::Player(PlaybackEvent::Playing { position_ms, .. }) => {
                self.position_ms = position_ms;
                ListenStep::Continue
            },
            SessionEvent::Player(PlaybackEvent::Progress { position_ms, .. }) => {
                self.position_ms = position_ms;
                ListenStep::Continue
            },
            SessionEvent::Player(PlaybackEvent::Paused { position_ms, .. }) => {
                self.position_ms = position_ms;
                ListenStep::Continue
            },
            SessionEvent::Player(PlaybackEvent::Stopped) => ListenStep::Continue,
            SessionEvent::Player(PlaybackEvent::EndOfTrack) => ListenStep::AdvanceQueue,
            SessionEvent::SessionLost => {
                self.lost = true;
                ListenStep::Rebuild
            },
            SessionEvent::TokenExpiring => {
                self.lost = false;
                ListenStep::Rebuild
            },
            SessionEvent::ChannelClosed => ListenStep::Shutdown,
        }
    }

    /// The live engine is being torn down for a rebuild; `still_playing` and
    /// `playing_track` are what it reports. Returns the seconds to wait
    /// before fetching a fresh token.
    pub fn engine_torn_down(&mut self, still_playing: bool, playing_track: Option<String>) -> (delay_secs: u64)
        ensures
            (final(self)@, delay_secs) == after_teardown(
                old(self)@,
                still_playing,
                match playing_track {
                    Some(t) => Some(t@),
                    None => None,
                },
            ),
    {
        if still_playing {
            self.resume_track = playing_track;
            self.resume_position_ms = self.position_ms;
        } else {
            self.resume_track = None;
            self.resume_position_ms = 0;
        }
        if self.lost {
            LOST_SESSION_DELAY_SECS
        } else {
            0
        }
    }
}

/// Whether a new engine is needed for `user_id`: none is live, or the live
/// one belongs to another user.
pub fn needs_new_engine(live_engine_user: Option<&str>, user_id: &str) -> (r: bool)
    ensures
        r == match live_engine_user {
            Some(u) => u@ != user_id@,
            None => true,
        },
{
    match live_engine_user {
        Some(u) => !str_equal(u, user_id),
        None => true,
    }
}

/// The display name and user id a session runs under: the name falls back
/// to "Listener", the id to the name.
pub fn session_identity(name: Option<String>, id: Option<String>) -> (r: (String, String))
    ensures
        r.0@ == match name {
            Some(n) => n@,
            None => "Listener"@,
        },
        r.1@ == match id {
            Some(i) => i@,
            None => r.0@,
        },
{
    let n = match name {
        Some(n) => n,
        None => "Listener".to_owned(),
    };
    let i = match id {
        Some(i) => i,
        None => n.clone(),
    };
    (n, i)
}

/// After consecutive failed builds the wait goes 5, 10, 20, 40 seconds and
/// then stays at a minute.
pub proof fn law_backoff_schedule(n: nat)
    ensures
        n == 0 ==> backoff_after_failures(n) == 5,
        n == 1 ==> backoff_after_failures(n) == 10,
        n == 2 ==> backoff_after_failures(n) == 20,
        n == 3 ==> backoff_after_failures(n) == 40,
        n >= 4 ==> backoff_after_failures(n) == 60,
    decreases n,
{
    if n > 0 {
        law_backoff_schedule((n - 1) as nat);
    }
}

/// Every wait stays between five seconds and a minute, and a successful
/// build brings it back to five.
pub proof fn law_backoff_bounded(v: SessionView)
    requires
        backoff_in_range(v),
    ensures
        backoff_in_range(after_failure(v).0),
        after_failure(v).1 == v.backoff_secs,
        after_start(v).0.backoff_secs == BACKOFF_BASE_SECS,
{
}

/// A track that was still playing when its engine was torn down is played
/// again by the next engine, from the last reported position (seeking only
/// past zero); a track that was not playing is not resumed.
pub proof fn law_resume_after_rebuild(v: SessionView, still_playing: bool, track: Seq<char>)
    ensures
        still_playing ==> after_start(after_teardown(v, still_playing, Some(track)).0).1 == Some(
            (track, if v.position_ms > 0 { Some(v.position_ms) } else { None::<u32> }),
        ),
        !still_playing ==> after_start(after_teardown(v, still_playing, Some(track)).0).1 is None,
{
}

/// A lost session is rebuilt after two seconds, a planned rebuild at once;
/// a closed event channel ends the session.
pub proof fn law_rebuild_delay(v: SessionView, still_playing: bool, track: Option<Seq<char>>)
    ensures
        after_teardown(after_event(v, SessionEvent::SessionLost).0, still_playing, track).1 == 2,
        after_teardown(after_event(v, SessionEvent::TokenExpiring).0, still_playing, track).1 == 0,
        after_event(v, SessionEvent::ChannelClosed).1 == ListenStep::Shutdown,
{
}

} // verus!
