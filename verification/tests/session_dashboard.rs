use r_audio::oobe::{OobeAction, OobeFlow, OobePhase};
use r_audio::dashboard::{crawl_list, feed_tracks, playlist_has_current, rows_to_mark, RetryPlan};
use r_audio::player::PlaybackEvent;
use r_audio::providers::Track;
use r_audio::session::{needs_new_engine, session_identity, ListenStep, SessionEvent, SessionManager};

fn track(id: &str) -> Track {
    Track::spotify(String::new(), id.to_string(), "T".into(), "A".into(), String::new(), "1:00".into())
}

#[test]
fn backoff_doubles_to_a_minute() {
    let mut m = SessionManager::new();
    let waits: Vec<u64> = (0..7).map(|_| m.engine_failed()).collect();
    assert_eq!(waits, vec![5, 10, 20, 40, 60, 60, 60]);
}

#[test]
fn backoff_resets_after_a_successful_build() {
    let mut m = SessionManager::new();
    m.engine_failed();
    m.engine_failed();
    assert_eq!(m.engine_started(), None);
    assert_eq!(m.engine_failed(), 5);
}

#[test]
fn lost_session_resumes_track_at_last_position() {
    let mut m = SessionManager::new();
    m.engine_started();
    let step = m.on_event(SessionEvent::Player(PlaybackEvent::Playing { position_ms: 1_500, duration_ms: 9_000 }));
    assert_eq!(step, ListenStep::Continue);
    m.on_event(SessionEvent::Player(PlaybackEvent::Progress { position_ms: 2_000, duration_ms: 9_000 }));
    assert_eq!(m.on_event(SessionEvent::SessionLost), ListenStep::Rebuild);
    assert_eq!(m.engine_torn_down(true, Some("trk".to_string())), 2);
    assert_eq!(m.engine_started(), Some(("trk".to_string(), Some(2_000))));
}

#[test]
fn planned_rebuild_has_no_delay_and_seeks_only_past_zero() {
    let mut m = SessionManager::new();
    m.engine_started();
    assert_eq!(m.on_event(SessionEvent::TokenExpiring), ListenStep::Rebuild);
    assert_eq!(m.engine_torn_down(true, Some("t".to_string())), 0);
    assert_eq!(m.engine_started(), Some(("t".to_string(), None)));
}

#[test]
fn nothing_is_resumed_when_not_playing() {
    let mut m = SessionManager::new();
    m.engine_started();
    m.on_event(SessionEvent::Player(PlaybackEvent::Paused { position_ms: 700, duration_ms: 9_000 }));
    m.on_event(SessionEvent::SessionLost);
    m.engine_torn_down(false, Some("t".to_string()));
    assert_eq!(m.engine_started(), None);
}

#[test]
fn end_of_track_advances_and_closed_channel_shuts_down() {
    let mut m = SessionManager::new();
    assert_eq!(m.on_event(SessionEvent::Player(PlaybackEvent::EndOfTrack)), ListenStep::AdvanceQueue);
    assert_eq!(m.on_event(SessionEvent::Player(PlaybackEvent::Stopped)), ListenStep::Continue);
    assert_eq!(m.on_event(SessionEvent::ChannelClosed), ListenStep::Shutdown);
}

#[test]
fn engine_needed_for_new_user_only() {
    assert!(needs_new_engine(None, "u1"));
    assert!(needs_new_engine(Some("u2"), "u1"));
    assert!(!needs_new_engine(Some("u1"), "u1"));
}

#[test]
fn session_identity_falls_back() {
    assert_eq!(session_identity(None, None), ("Listener".to_string(), "Listener".to_string()));
    assert_eq!(session_identity(Some("Ann".into()), None), ("Ann".to_string(), "Ann".to_string()));
    assert_eq!(session_identity(None, Some("id9".into())), ("Listener".to_string(), "id9".to_string()));
}

#[test]
fn feed_prefers_fresh_then_cached() {
    assert_eq!(feed_tracks(Some(vec![track("f")]), Some(vec![track("c")]))[0].id, "f");
    assert_eq!(feed_tracks(None, Some(vec![track("c")]))[0].id, "c");
    assert!(feed_tracks(None, None).is_empty());
}

#[test]
fn no_retry_when_everything_loaded() {
    assert_eq!(RetryPlan::after_first_load(false, false, false), None);
}

#[test]
fn retry_only_failed_feeds_until_done() {
    let mut p = RetryPlan::after_first_load(true, false, true).unwrap();
    assert_eq!(p, RetryPlan { recent: true, playlists: false, artists: true, delay_secs: 5 });
    assert!(!p.record_attempt(true, false, false));
    assert_eq!(p, RetryPlan { recent: false, playlists: false, artists: true, delay_secs: 10 });
    assert!(!p.record_attempt(false, false, false));
    assert!(!p.record_attempt(false, false, false));
    assert!(!p.record_attempt(false, false, false));
    assert_eq!(p.delay_secs, 60);
    assert!(!p.record_attempt(false, false, false));
    assert_eq!(p.delay_secs, 60);
    assert!(p.record_attempt(false, false, true));
    assert_eq!(p, RetryPlan { recent: false, playlists: false, artists: false, delay_secs: 60 });
}

#[test]
fn playlist_match_ignores_uri_prefix() {
    let tracks = vec![track("spotify:track:abc"), track("def")];
    assert!(playlist_has_current(&tracks, "abc"));
    assert!(playlist_has_current(&tracks, "spotify:track:def"));
    assert!(!playlist_has_current(&tracks, "zzz"));
    assert!(!playlist_has_current(&tracks, ""));
    assert!(!playlist_has_current(&tracks, "spotify:track:"));
}

#[test]
fn rows_marked_present() {
    let rows = vec!["p1".to_string(), "p2".to_string(), "p3".to_string()];
    let matches = vec!["p3".to_string(), "p1".to_string()];
    assert_eq!(rows_to_mark(&rows, &matches), vec![true, false, true]);
}

#[test]
fn crawl_only_fresh_playlists() {
    let pl = vec![track("p1"), track("p2")];
    assert_eq!(crawl_list(&pl, false).len(), 2);
    assert!(crawl_list(&pl, true).is_empty());
}

#[test]
fn oobe_happy_path_reaches_pairing() {
    let (mut flow, opening) = OobeFlow::begin();
    assert_eq!(flow.phase, OobePhase::Waiting);
    assert_eq!(
        opening,
        vec![
            OobeAction::ShowStarting,
            OobeAction::StartHotspot,
            OobeAction::Pause(2),
            OobeAction::ShowHotspotActive,
            OobeAction::ServeSetupPage
        ]
    );
    assert_eq!(
        flow.network_submitted(),
        vec![OobeAction::ShowConnecting, OobeAction::StopHotspot, OobeAction::Pause(1), OobeAction::Join]
    );
    assert_eq!(flow.join_finished(true), vec![OobeAction::Pause(3), OobeAction::CheckInternet]);
    assert_eq!(
        flow.check_finished(true),
        vec![OobeAction::ShowConnected, OobeAction::Pause(1), OobeAction::StartPairing]
    );
    assert_eq!(flow.phase, OobePhase::Paired);
}

#[test]
fn oobe_failures_reopen_hotspot() {
    let retry = vec![OobeAction::StartHotspot, OobeAction::Pause(2), OobeAction::ShowFailed];
    let (mut flow, _) = OobeFlow::begin();
    flow.network_submitted();
    assert_eq!(flow.join_finished(false), retry);
    assert_eq!(flow.phase, OobePhase::Waiting);
    flow.network_submitted();
    flow.join_finished(true);
    assert_eq!(flow.check_finished(false), retry);
    assert_eq!(flow.phase, OobePhase::Waiting);
    assert!(flow.join_finished(true).is_empty());
    assert!(flow.check_finished(true).is_empty());
    flow.network_submitted();
    assert!(flow.network_submitted().is_empty());
}
