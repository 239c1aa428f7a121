//! Verified core of a Spotify kiosk player: response parsing, the playback
//! queue, the player event relay and audio-session manager, the cache and its
//! playlist reverse index, account bookkeeping and pairing, the dashboard
//! loader, the in-memory cover-art cache, first-run Wi-Fi setup, and the small text formats the kiosk reads
//! and writes.
use vstd::prelude::*;

pub mod accounts;
pub mod api;
pub mod cache;
pub mod covers;
pub mod dashboard;
pub mod imaging;
pub mod json;
pub mod oobe;
pub mod pairing;
pub mod parser;
pub mod player;
pub mod providers;
pub mod queue;
pub mod session;
pub mod setup;
pub mod text;

verus! {

} // verus!
