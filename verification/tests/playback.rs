use r_audio::player::{
    parse_duration_str_to_ms, PlaybackEvent, PlayerState, RawPlayerEvent, EARLY_END_MARGIN_MS, TICK_MS,
};
use r_audio::providers::{ProviderType, Track};
use r_audio::queue::PlaybackQueue;
use r_audio::json::{JsonNumber, JsonValue};

fn track_with_ms(ms: u64) -> JsonValue {
    JsonValue::Object(vec![
        ("id".to_string(), JsonValue::Str("t".to_string())),
        ("artists".to_string(), JsonValue::Array(vec![JsonValue::Object(vec![])])),
        ("duration_ms".to_string(), JsonValue::Number(JsonNumber { as_u64: Some(ms), as_i64: Some(ms as i64) })),
    ])
}

fn track(id: &str, title: &str, artist: &str) -> Track {
    Track::spotify(
        String::new(),
        id.to_string(),
        title.to_string(),
        artist.to_string(),
        String::new(),
        "3:00".to_string(),
    )
}

#[test]
fn duration_minutes_and_seconds() {
    assert_eq!(parse_duration_str_to_ms("3:45"), 225_000);
    assert_eq!(parse_duration_str_to_ms("0:07"), 7_000);
}

#[test]
fn duration_hours_minutes_seconds() {
    assert_eq!(parse_duration_str_to_ms("1:02:03"), 3_723_000);
}

#[test]
fn duration_plain_number_is_taken_as_is() {
    assert_eq!(parse_duration_str_to_ms("42"), 42);
}

#[test]
fn duration_unreadable_is_zero() {
    assert_eq!(parse_duration_str_to_ms("abc"), 0);
    assert_eq!(parse_duration_str_to_ms("1:xx"), 0);
    assert_eq!(parse_duration_str_to_ms("1:2:3:4"), 0);
    assert_eq!(parse_duration_str_to_ms(""), 0);
    assert_eq!(parse_duration_str_to_ms("-1:30"), 0);
}

#[test]
fn spotify_track_has_fixed_stream_format() {
    let t = track("id1", "Song", "Band");
    assert_eq!(t.source, ProviderType::Spotify);
    assert_eq!(t.sample_rate, 44100);
    assert_eq!(t.bit_depth, 16);
    let d = t.duplicate();
    assert_eq!(d.id, "id1");
    assert_eq!(d.duration_str, "3:00");
}

#[test]
fn relay_reports_playing_with_known_duration() {
    let mut s = PlayerState::new();
    s.duration_ms = 200_000;
    let out = s.on_player_event(RawPlayerEvent::Playing { position_ms: 1_000 });
    assert_eq!(out, Some(PlaybackEvent::Playing { position_ms: 1_000, duration_ms: 200_000 }));
    assert!(s.is_playing);
    assert_eq!(s.position_ms, 1_000);
}

#[test]
fn relay_ignores_early_end_of_track() {
    let mut s = PlayerState { position_ms: 10_000, duration_ms: 200_000, is_playing: true };
    let before = s;
    let out = s.on_player_event(RawPlayerEvent::EndOfTrack);
    assert_eq!(out, None);
    assert_eq!(s, before);
}

#[test]
fn relay_passes_end_of_track_near_the_end() {
    let mut s = PlayerState {
        position_ms: 200_000 - EARLY_END_MARGIN_MS,
        duration_ms: 200_000,
        is_playing: true,
    };
    let out = s.on_player_event(RawPlayerEvent::EndOfTrack);
    assert_eq!(out, Some(PlaybackEvent::EndOfTrack));
    assert!(!s.is_playing);
}

#[test]
fn relay_passes_end_of_track_with_unknown_duration() {
    let mut s = PlayerState { position_ms: 5, duration_ms: 0, is_playing: true };
    assert_eq!(s.on_player_event(RawPlayerEvent::EndOfTrack), Some(PlaybackEvent::EndOfTrack));
}

#[test]
fn relay_paused_and_stopped() {
    let mut s = PlayerState { position_ms: 0, duration_ms: 9_000, is_playing: true };
    assert_eq!(
        s.on_player_event(RawPlayerEvent::Paused { position_ms: 4_000 }),
        Some(PlaybackEvent::Paused { position_ms: 4_000, duration_ms: 9_000 })
    );
    assert!(!s.is_playing);
    assert_eq!(s.on_player_event(RawPlayerEvent::Stopped), Some(PlaybackEvent::Stopped));
    assert_eq!(s.on_player_event(RawPlayerEvent::Other), None);
}

#[test]
fn tick_advances_and_clamps_at_the_end() {
    let mut s = PlayerState { position_ms: 1_000, duration_ms: 1_100, is_playing: true };
    assert_eq!(s.on_tick(), Some(PlaybackEvent::Progress { position_ms: 1_100, duration_ms: 1_100 }));
    assert_eq!(s.position_ms, 1_100);
    let mut t = PlayerState { position_ms: 0, duration_ms: 10_000, is_playing: true };
    assert_eq!(t.on_tick(), Some(PlaybackEvent::Progress { position_ms: TICK_MS, duration_ms: 10_000 }));
}

#[test]
fn tick_is_silent_when_paused_or_duration_unknown() {
    let mut s = PlayerState { position_ms: 1_000, duration_ms: 5_000, is_playing: false };
    assert_eq!(s.on_tick(), None);
    let mut t = PlayerState { position_ms: 1_000, duration_ms: 0, is_playing: true };
    assert_eq!(t.on_tick(), None);
    assert_eq!(t.position_ms, 1_000);
}

#[test]
fn loading_a_track_resets_playing_and_duration() {
    let mut s = PlayerState { position_ms: 7, duration_ms: 5_000, is_playing: true };
    s.track_loading();
    assert_eq!(s, PlayerState { position_ms: 7, duration_ms: 0, is_playing: false });
}

#[test]
fn queue_starts_at_chosen_track() {
    let source = vec![track("a", "A", "x"), track("b", "B", "y"), track("c", "C", "z")];
    let mut q = PlaybackQueue::new();
    assert!(q.start_from(&source, "b"));
    assert_eq!(q.current_index(), 1);
    assert_eq!(q.len(), 3);
}

#[test]
fn queue_starts_at_last_duplicate_or_first() {
    let source = vec![track("a", "A", "x"), track("b", "B", "y"), track("a", "A2", "x")];
    let mut q = PlaybackQueue::new();
    assert!(q.start_from(&source, "a"));
    assert_eq!(q.current_index(), 2);
    assert!(q.start_from(&source, "missing"));
    assert_eq!(q.current_index(), 0);
}

#[test]
fn queue_empty_source_keeps_queue() {
    let mut q = PlaybackQueue::new();
    q.play_single(track("solo", "S", "x"));
    assert!(!q.start_from(&Vec::new(), "a"));
    assert_eq!(q.len(), 1);
    assert_eq!(q.tracks()[0].id, "solo");
}

#[test]
fn queue_advance_wraps_to_first() {
    let source = vec![track("a", "A", "x"), track("b", "B", "y")];
    let mut q = PlaybackQueue::new();
    q.start_from(&source, "b");
    assert_eq!(q.advance(), Some("a".to_string()));
    assert_eq!(q.current_index(), 0);
    assert_eq!(q.advance(), Some("b".to_string()));
}

#[test]
fn queue_back_wraps_to_last() {
    let source = vec![track("a", "A", "x"), track("b", "B", "y"), track("c", "C", "y")];
    let mut q = PlaybackQueue::new();
    q.start_from(&source, "a");
    assert_eq!(q.go_back(), Some("c".to_string()));
    assert_eq!(q.current_index(), 2);
}

#[test]
fn queue_back_undoes_advance() {
    let source = vec![track("a", "A", "x"), track("b", "B", "y"), track("c", "C", "y")];
    for start in ["a", "b", "c"] {
        let mut q = PlaybackQueue::new();
        q.start_from(&source, start);
        let before = q.current_index();
        q.advance();
        q.go_back();
        assert_eq!(q.current_index(), before);
    }
}

#[test]
fn queue_empty_steps_give_nothing() {
    let mut q = PlaybackQueue::new();
    assert_eq!(q.advance(), None);
    assert_eq!(q.go_back(), None);
    assert_eq!(q.recommendation_seed(), None);
    assert_eq!(q.next_to_preload(), None);
}

#[test]
fn queue_recommendations_near_the_end() {
    let source = vec![track("a", "A", "x"), track("b", "B", "y"), track("c", "C", "z")];
    let mut q = PlaybackQueue::new();
    q.start_from(&source, "a");
    assert_eq!(q.recommendation_seed(), None);
    q.advance();
    assert_eq!(q.recommendation_seed(), Some(("C".to_string(), "z".to_string())));
    q.advance();
    assert_eq!(q.recommendation_seed(), Some(("C".to_string(), "z".to_string())));
}

#[test]
fn queue_extend_keeps_position_and_preloads_next() {
    let mut q = PlaybackQueue::new();
    q.play_single(track("a", "A", "x"));
    assert_eq!(q.next_to_preload(), None);
    q.extend(vec![track("r1", "R1", "x"), track("r2", "R2", "x")]);
    assert_eq!(q.current_index(), 0);
    assert_eq!(q.len(), 3);
    assert_eq!(q.next_to_preload(), Some("r1".to_string()));
}

#[test]
fn checked_duration_reports_overflow() {
    assert_eq!(r_audio::player::checked_duration_ms("3:45"), Some(225_000));
    assert_eq!(r_audio::player::checked_duration_ms("+5"), Some(5));
    assert_eq!(r_audio::player::checked_duration_ms("2000:00:00"), None);
    assert_eq!(r_audio::player::checked_duration_ms("4294967295"), Some(4_294_967_295));
    assert_eq!(r_audio::player::checked_duration_ms("4294967296"), Some(0));
}

#[test]
fn clock_texts_read_back_as_milliseconds() {
    for secs in [0u64, 7, 59, 60, 225, 3599, 3600, 4_294_967] {
        let text = r_audio::text::clock_string(secs);
        assert_eq!(parse_duration_str_to_ms(&text) as u64, secs * 1000, "{text}");
    }
    let t = r_audio::parser::SpotifyParser::parse_track_lenient(&track_with_ms(225_500)).unwrap();
    assert_eq!(parse_duration_str_to_ms(&t.duration_str), 226_000);
}
