use r_audio::accounts::{avatar_letter, entry_screen, profile_image_id, EntryScreen};
use r_audio::accounts::{is_expired, seconds_until_expiry, AccountBook, Instant, StoredToken};
use r_audio::text::{
    after_cursor, backspace, before_cursor, char_count, chars_of, clock_string, lines_chars, split_chars,
    split_once_chars, starts_with, strip_prefix_or_keep, trim_chars,
};

fn token(access: &str, expires_at: Option<Instant>) -> StoredToken {
    StoredToken {
        access_token: access.to_string(),
        expires_in_secs: 3600,
        expires_at,
        refresh_token: Some("r".to_string()),
        scopes: vec!["streaming".to_string()],
    }
}

fn at(secs: i64) -> Instant {
    Instant { secs, nanos: 0 }
}

fn text(v: &[char]) -> String {
    v.iter().collect()
}

#[test]
fn clock_pads_seconds() {
    assert_eq!(clock_string(0), "0:00");
    assert_eq!(clock_string(65), "1:05");
    assert_eq!(clock_string(600), "10:00");
    assert_eq!(clock_string(3723), "62:03");
}

#[test]
fn splitting_and_trimming() {
    let parts = split_chars(&chars_of("a::b"), ':');
    let got: Vec<String> = parts.iter().map(|p| text(p)).collect();
    assert_eq!(got, vec!["a", "", "b"]);
    assert_eq!(split_chars(&chars_of(""), ':').len(), 1);
    let (a, b) = split_once_chars(&chars_of("k=v=w"), '=').unwrap();
    assert_eq!((text(&a), text(&b)), ("k".to_string(), "v=w".to_string()));
    assert!(split_once_chars(&chars_of("kv"), '=').is_none());
    assert_eq!(text(&trim_chars(&chars_of(" \t x y \n"))), "x y");
    assert_eq!(text(&trim_chars(&chars_of("\u{3000}z\u{a0}"))), "z");
}

#[test]
fn lines_like_str_lines() {
    let ls: Vec<String> = lines_chars(&chars_of("a\r\nb\n\nc")).iter().map(|l| text(l)).collect();
    assert_eq!(ls, vec!["a", "b", "", "c"]);
    let ls2: Vec<String> = lines_chars(&chars_of("x\n")).iter().map(|l| text(l)).collect();
    assert_eq!(ls2, vec!["x"]);
    assert!(lines_chars(&chars_of("")).is_empty());
}

#[test]
fn prefixes() {
    assert!(starts_with("spotify:track:1", "spotify:track:"));
    assert!(!starts_with("spot", "spotify"));
    assert_eq!(strip_prefix_or_keep("spotify:user:me", "spotify:user:"), "me");
    assert_eq!(strip_prefix_or_keep("me", "spotify:user:"), "me");
}

#[test]
fn keyboard_editing() {
    assert_eq!(backspace("abc"), "ab");
    assert_eq!(backspace("h\u{e9}"), "h");
    assert_eq!(backspace(""), "");
    assert_eq!(char_count("h\u{e9}llo"), 5);
    assert_eq!(before_cursor("hello", 2), "he");
    assert_eq!(after_cursor("hello", 2), "llo");
    assert_eq!(before_cursor("hello", -3), "");
    assert_eq!(after_cursor("hello", 99), "");
    for pos in [-1, 0, 3, 5, 7] {
        assert_eq!(before_cursor("hello", pos) + &after_cursor("hello", pos), "hello");
    }
}

#[test]
fn account_pairing_makes_active() {
    let mut book = AccountBook::new();
    assert_eq!(book.active_user(), None);
    book.record_paired("Ann".to_string(), token("t1", None), Some("img".to_string()));
    assert_eq!(book.active_user(), Some(&"Ann".to_string()));
    assert_eq!(book.user("Ann").unwrap().image_url, Some("img".to_string()));
    book.record_paired("Bob".to_string(), token("t2", None), None);
    assert_eq!(book.active_user(), Some(&"Bob".to_string()));
    assert_eq!(book.user_count(), 2);
}

#[test]
fn legacy_token_filed_under_default_name() {
    let book = AccountBook::from_legacy_token(token("old", None));
    assert_eq!(book.active_user(), Some(&"Spotify User".to_string()));
    assert_eq!(book.user("Spotify User").unwrap().token.access_token, "old");
}

#[test]
fn verified_session_renames_account() {
    let mut book = AccountBook::from_legacy_token(token("old", None));
    book.record_verified_session("Spotify User", "Ann".to_string(), token("new", None), Some("i".to_string()));
    assert!(book.user("Spotify User").is_none());
    assert_eq!(book.user("Ann").unwrap().token.access_token, "new");
    assert_eq!(book.active_user(), Some(&"Ann".to_string()));
    book.record_verified_session("Ghost", "Ghost2".to_string(), token("x", None), None);
    assert_eq!(book.user_count(), 1);
}

#[test]
fn refreshed_token_stored_only_when_changed() {
    let mut book = AccountBook::new();
    book.record_paired("Ann".to_string(), token("t1", None), Some("img".to_string()));
    assert!(!book.record_refreshed_token("Ann", token("t1", None)));
    assert!(book.record_refreshed_token("Ann", token("t2", None)));
    assert_eq!(book.user("Ann").unwrap().token.access_token, "t2");
    assert_eq!(book.user("Ann").unwrap().image_url, Some("img".to_string()));
    assert!(!book.record_refreshed_token("Nobody", token("t3", None)));
}

#[test]
fn logout_of_active_account_picks_another() {
    let mut book = AccountBook::new();
    book.record_paired("Ann".to_string(), token("a", None), None);
    book.record_paired("Bob".to_string(), token("b", None), None);
    assert!(book.logout("Bob"));
    assert!(book.user("Bob").is_none());
    assert_eq!(book.active_user(), Some(&"Ann".to_string()));
    assert!(book.logout("Ann"));
    assert_eq!(book.active_user(), None);
    assert_eq!(book.user_count(), 0);
}

#[test]
fn logout_of_other_account_keeps_active() {
    let mut book = AccountBook::new();
    book.record_paired("Ann".to_string(), token("a", None), None);
    book.record_paired("Bob".to_string(), token("b", None), None);
    assert!(!book.logout("Ann"));
    assert_eq!(book.active_user(), Some(&"Bob".to_string()));
    book.select("Ann".to_string());
    assert_eq!(book.active_user(), Some(&"Ann".to_string()));
}

#[test]
fn token_expiry_has_ten_second_margin() {
    assert!(is_expired(&token("t", None), at(100)));
    assert!(!is_expired(&token("t", Some(at(111))), at(100)));
    assert!(is_expired(&token("t", Some(at(110))), at(100)));
    assert!(is_expired(&token("t", Some(at(50))), at(100)));
}

#[test]
fn reconnect_scheduled_before_expiry() {
    assert_eq!(seconds_until_expiry(Some(at(1000)), 300, at(100)), Some(600));
    assert_eq!(seconds_until_expiry(Some(Instant { secs: 401, nanos: 500_000_000 }), 300, at(100)), Some(1));
    assert_eq!(seconds_until_expiry(Some(at(400)), 300, at(100)), None);
    assert_eq!(seconds_until_expiry(None, 300, at(100)), None);
    // A negative margin waits past the expiry.
    assert_eq!(seconds_until_expiry(Some(at(1000)), -300, at(100)), Some(1200));
    assert_eq!(seconds_until_expiry(Some(at(50)), -60, at(100)), Some(10));
    assert_eq!(seconds_until_expiry(Some(at(50)), -50, at(100)), None);
}

#[test]
fn account_tiles() {
    assert_eq!(avatar_letter("ann"), "A");
    assert_eq!(avatar_letter("7up"), "7");
    assert_eq!(avatar_letter(""), "U");
    assert_eq!(avatar_letter("\u{df}x"), "SS");
    assert_eq!(profile_image_id("Ann Lee Jr"), "profile_Ann_Lee_Jr");
    assert_eq!(entry_screen(false, true), EntryScreen::Pairing);
    assert_eq!(entry_screen(true, true), EntryScreen::Dashboard);
    assert_eq!(entry_screen(true, false), EntryScreen::AccountPicker);
}
