//! The player's event relay: how raw playback engine events and the periodic
//! progress tick update the tracked position and what is reported to the UI,
//! and the parsing of track duration texts.
use vstd::prelude::*;
use crate::text::{chars_of, clock_text, decimal, digit_char, split_chars, split_on, two_digits};

verus! {

// ---------------------------------------------------------------------------
// Decimal and duration parsing
// ---------------------------------------------------------------------------

pub open spec fn is_digit(c: char) -> bool {
    '0' <= c && c <= '9'
}

/// The value of a string of ASCII digits.
pub open spec fn digits_value(d: Seq<char>) -> nat
    decreases d.len(),
{
    if d.len() == 0 {
        0
    } else {
        digits_value(d.drop_last()) * 10 + ((d.last() as u32) - 48) as nat
    }
}

/// The digits `u32::from_str` reads: `s` without one leading `'+'`.
pub open spec fn unsigned_digits(s: Seq<char>) -> Seq<char> {
    if s.len() > 0 && s[0] == '+' {
        s.drop_first()
    } else {
        s
    }
}

/// `u32::from_str`: an optional `'+'` and at least one ASCII digit, with a
/// value that fits in 32 bits.
pub open spec fn parse_u32_text(s: Seq<char>) -> Option<u32> {
    let d = unsigned_digits(s);
    if d.len() > 0 && (forall|i: int| 0 <= i < d.len() ==> is_digit(#[trigger] d[i]))
        && digits_value(d) <= u32::MAX {
        Some(digits_value(d) as u32)
    } else {
        None
    }
}

/// The milliseconds that a duration text stands for: `"m:ss"` and `"h:mm:ss"`
/// are converted from seconds (zero when a field is not a number), a bare
/// number is taken as milliseconds as it is, anything else gives zero.
pub open spec fn duration_text_ms(s: Seq<char>) -> int {
    let parts = split_on(s, ':');
    if parts.len() == 2 {
        match (parse_u32_text(parts[0]), parse_u32_text(parts[1])) {
            (Some(m), Some(x)) => (m * 60 + x) * 1000,
            _ => 0,
        }
    } else if parts.len() == 3 {
        match (parse_u32_text(parts[0]), parse_u32_text(parts[1]), parse_u32_text(parts[2])) {
            (Some(h), Some(m), Some(x)) => (h * 3600 + m * 60 + x) * 1000,
            _ => 0,
        }
    } else {
        match parse_u32_text(s) {
            Some(x) => x as int,
            None => 0,
        }
    }
}

proof fn lemma_digits_value_prefix(d: Seq<char>, i: int)
    requires
        0 <= i <= d.len(),
    ensures
        digits_value(d.take(i)) <= digits_value(d),
    decreases d.len() - i,
{
    if i < d.len() {
        lemma_digits_value_prefix(d, i + 1);
        assert(d.take(i + 1).drop_last() =~= d.take(i));
    } else {
        assert(d.take(i) =~= d);
    }
}

/// `u32::from_str` on characters.
pub fn parse_u32_chars(s: &Vec<char>) -> (r: Option<u32>)
    ensures
        r == parse_u32_text(s@),
{
    let start: usize = if s.len() > 0 && s[0] == '+' {
        1
    } else {
        0
    };
    let ghost d = unsigned_digits(s@);
    assert(d =~= s@.skip(start as int));
    if start >= s.len() {
        return None;
    }
    let mut acc: u64 = 0;
    let mut i: usize = start;
    while i < s.len()
        invariant
            start <= i <= s.len(),
            start < s.len(),
            d == s@.skip(start as int),
            d == unsigned_digits(s@),
            acc == digits_value(d.take(i - start)),
            acc <= u32::MAX,
            forall|j: int| 0 <= j < i - start ==> is_digit(#[trigger] d[j]),
        decreases s.len() - i,
    {
        let c = s[i];
        if !('0' <= c && c <= '9') {
            assert(d[i - start] == c);
            assert(!is_digit(d[i - start]));
            return None;
        }
        assert(d.take(i - start + 1).drop_last() =~= d.take(i - start));
        assert(d.take(i - start + 1).last() == c);
        let next: u64 = acc * 10 + ((c as u32) - 48) as u64;
        if next > 0xffff_ffff {
            proof {
                lemma_digits_value_prefix(d, i - start + 1);
            }
            return None;
        }
        acc = next;
        i += 1;
    }
    assert(d.take(i - start) =~= d);
    Some(acc as u32)
}

/// Milliseconds for a duration text such as `"3:07"` or `"1:02:03"`.
/// Hour-and-minute forms are converted from seconds; a text without `':'`
/// that is a plain number is returned as it is; anything else gives 0.
pub fn parse_duration_str_to_ms(dur_str: &str) -> (ms: u32)
    requires
        duration_text_ms(dur_str@) <= u32::MAX,
    ensures
        ms == duration_text_ms(dur_str@),
{
    let v = chars_of(dur_str);
    let parts = split_chars(&v, ':');
    let mut secs: u32 = 0;
    if parts.len() == 2 {
        let a = parse_u32_chars(&parts[0]);
        let b = parse_u32_chars(&parts[1]);
        match (a, b) {
            (Some(m), Some(s)) => {
                assert((m * 60 + s) <= u32::MAX) by (nonlinear_arith)
                    requires
                        (m * 60 + s) * 1000 <= u32::MAX,
                ;
                secs = m * 60 + s;
            },
            _ => {},
        }
    } else if parts.len() == 3 {
        let a = parse_u32_chars(&parts[0]);
        let b = parse_u32_chars(&parts[1]);
        let c = parse_u32_chars(&parts[2]);
        match (a, b, c) {
            (Some(h), Some(m), Some(s)) => {
                assert((h * 3600 + m * 60 + s) <= u32::MAX) by (nonlinear_arith)
                    requires
                        (h * 3600 + m * 60 + s) * 1000 <= u32::MAX,
                ;
                secs = h * 3600 + m * 60 + s;
            },
            _ => {},
        }
    } else {
        match parse_u32_chars(&v) {
            Some(s) => {
                return s;
            },
            None => {},
        }
    }
    secs * 1000
}

/// The milliseconds of a duration text, or `None` when they do not fit in
/// 32 bits (where [`parse_duration_str_to_ms`] cannot be used).
pub fn checked_duration_ms(dur_str: &str) -> (ms: Option<u32>)
    ensures
        match ms {
            Some(m) => duration_text_ms(dur_str@) <= u32::MAX && m == duration_text_ms(dur_str@),
            None => duration_text_ms(dur_str@) > u32::MAX,
        },
{
    let v = chars_of(dur_str);
    let parts = split_chars(&v, ':');
    let total: u64 = if parts.len() == 2 {
        match (parse_u32_chars(&parts[0]), parse_u32_chars(&parts[1])) {
            (Some(m), Some(s)) => (m as u64 * 60 + s as u64) * 1000,
            _ => 0,
        }
    } else if parts.len() == 3 {
        match (parse_u32_chars(&parts[0]), parse_u32_chars(&parts[1]), parse_u32_chars(&parts[2])) {
            (Some(h), Some(m), Some(s)) => (h as u64 * 3600 + m as u64 * 60 + s as u64) * 1000,
            _ => 0,
        }
    } else {
        match parse_u32_chars(&v) {
            Some(s) => s as u64,
            None => 0,
        }
    };
    if total <= 0xffff_ffff {
        Some(parse_duration_str_to_ms(dur_str))
    } else {
        None
    }
}

// ---------------------------------------------------------------------------
// Event relay
// ---------------------------------------------------------------------------

/// Events reported to the UI.
#[derive(Clone, Copy, Debug, PartialEq, Eq, Structural)]
pub enum PlaybackEvent {
    Playing { position_ms: u32, duration_ms: u32 },
    Paused { position_ms: u32, duration_ms: u32 },
    Stopped,
    EndOfTrack,
    /// Sent on every progress tick while playing, so the progress bar stays live.
    Progress { position_ms: u32, duration_ms: u32 },
}

/// The playback engine's events that the relay acts on; everything else is
/// `Other`.
#[derive(Clone, Copy, Debug, PartialEq, Eq, Structural)]
pub enum RawPlayerEvent {
    Playing { position_ms: u32 },
    Paused { position_ms: u32 },
    Stopped,
    EndOfTrack,
    Other,
}

/// What the relay knows about the loaded track.
#[derive(Clone, Copy, Debug, PartialEq, Eq, Structural)]
pub struct PlayerState {
    pub position_ms: u32,
    pub duration_ms: u32,
    pub is_playing: bool,
}

/// Milliseconds that the position estimate advances per progress tick.
pub const TICK_MS: u32 = 250;

/// An end-of-track event this far or more before the known end is spurious.
pub const EARLY_END_MARGIN_MS: u32 = 3000;

/// An end-of-track event arriving while more than the margin is left of a
/// known duration.
pub open spec fn is_early_end(s: PlayerState) -> bool {
    s.duration_ms > 0 && s.position_ms < s.duration_ms - EARLY_END_MARGIN_MS
}

/// The relay's reaction to one engine event: the next state and what is
/// reported.
pub open spec fn relay_event(s: PlayerState, ev: RawPlayerEvent) -> (PlayerState, Option<PlaybackEvent>) {
    match ev {
        RawPlayerEvent::Playing { position_ms } => (
            PlayerState { position_ms, is_playing: true, ..s },
            Some(PlaybackEvent::Playing { position_ms, duration_ms: s.duration_ms }),
        ),
        RawPlayerEvent::Paused { position_ms } => (
            PlayerState { position_ms, is_playing: false, ..s },
            Some(PlaybackEvent::Paused { position_ms, duration_ms: s.duration_ms }),
        ),
        RawPlayerEvent::Stopped => (PlayerState { is_playing: false, ..s }, Some(PlaybackEvent::Stopped)),
        RawPlayerEvent::EndOfTrack => if is_early_end(s) {
            (s, None)
        } else {
            (PlayerState { is_playing: false, ..s }, Some(PlaybackEvent::EndOfTrack))
        },
        RawPlayerEvent::Other => (s, None),
    }
}

/// The relay's reaction to a progress tick.
pub open spec fn relay_tick(s: PlayerState) -> (PlayerState, Option<PlaybackEvent>) {
    if s.is_playing && s.duration_ms > 0 {
        let p = if s.position_ms + TICK_MS < s.duration_ms {
            (s.position_ms + TICK_MS) as u32
        } else {
            s.duration_ms
        };
        (PlayerState { position_ms: p, ..s }, Some(PlaybackEvent::Progress { position_ms: p, duration_ms: s.duration_ms }))
    } else {
        (s, None)
    }
}

impl PlayerState {
    /// Nothing loaded, not playing.
    pub fn new() -> (s: PlayerState)
        ensures
            s == (PlayerState { position_ms: 0, duration_ms: 0, is_playing: false }),
    {
        PlayerState { position_ms: 0, duration_ms: 0, is_playing: false }
    }

    /// A new track is being loaded: not playing, its duration unknown until
    /// it is set.
    pub fn track_loading(&mut self)
        ensures
            *final(self) == (PlayerState { is_playing: false, duration_ms: 0, ..*old(self) }),
    {
        self.is_playing = false;
        self.duration_ms = 0;
    }

    /// Applies one engine event and returns what to report to the UI.
    /// An end-of-track event more than three seconds before a known end is
    /// ignored.
    pub fn on_player_event(&mut self, ev: RawPlayerEvent) -> (out: Option<PlaybackEvent>)
        requires
            ev == RawPlayerEvent::EndOfTrack && old(self).duration_ms > 0 ==> old(self).duration_ms
                >= EARLY_END_MARGIN_MS,
        ensures
            (*final(self), out) == relay_event(*old(self), ev),
    {
        match ev {
            RawPlayerEvent::Playing { position_ms } => {
                self.position_ms = position_ms;
                self.is_playing = true;
                Some(PlaybackEvent::Playing { position_ms, duration_ms: self.duration_ms })
            },
            RawPlayerEvent::Paused { position_ms } => {
                self.position_ms = position_ms;
                self.is_playing = false;
                Some(PlaybackEvent::Paused { position_ms, duration_ms: self.duration_ms })
            },
            RawPlayerEvent::Stopped => {
                self.is_playing = false;
                Some(PlaybackEvent::Stopped)
            },
            RawPlayerEvent::EndOfTrack => {
                if self.duration_ms > 0 && self.position_ms < self.duration_ms - EARLY_END_MARGIN_MS {
                    None
                } else {
                    self.is_playing = false;
                    Some(PlaybackEvent::EndOfTrack)
                }
            },
            RawPlayerEvent::Other => None,
        }
    }

    /// Advances the position estimate by one tick while playing, never past
    /// the known duration, and reports the progress.
    pub fn on_tick(&mut self) -> (out: Option<PlaybackEvent>)
        requires
            old(self).position_ms + TICK_MS <= u32::MAX,
        ensures
            (*final(self), out) == relay_tick(*old(self)),
    {
        if self.is_playing && self.duration_ms > 0 {
            let sum = self.position_ms + TICK_MS;
            let p = if sum < self.duration_ms {
                sum
            } else {
                self.duration_ms
            };
            self.position_ms = p;
            Some(PlaybackEvent::Progress { position_ms: p, duration_ms: self.duration_ms })
        } else {
            None
        }
    }
}

/// A progress tick never moves the position past the known duration, and a
/// tick while playing a track of known duration never moves it backwards
/// unless it was already past the end.
pub proof fn law_tick_stays_within_track(s: PlayerState)
    ensures
        relay_tick(s).0.duration_ms == s.duration_ms,
        s.is_playing && s.duration_ms > 0 ==> relay_tick(s).0.position_ms <= s.duration_ms,
        s.is_playing && s.duration_ms > 0 && s.position_ms <= s.duration_ms ==> s.position_ms
            <= relay_tick(s).0.position_ms,
{
}

/// An end-of-track event is either dropped as spurious, leaving the state as
/// it was, or stops playback and is reported.
pub proof fn law_end_of_track(s: PlayerState)
    ensures
        is_early_end(s) ==> relay_event(s, RawPlayerEvent::EndOfTrack) == (s, None::<PlaybackEvent>),
        !is_early_end(s) ==> !relay_event(s, RawPlayerEvent::EndOfTrack).0.is_playing
            && relay_event(s, RawPlayerEvent::EndOfTrack).1 == Some(PlaybackEvent::EndOfTrack),
{
}


// ---------------------------------------------------------------------------
// Duration texts read back
// ---------------------------------------------------------------------------

proof fn lemma_digit_char(d: nat)
    requires
        d < 10,
    ensures
        is_digit(digit_char(d)),
        (digit_char(d) as u32) - 48 == d,
{
    let x: u32 = (d + 48) as u32;
    assert(48 <= x < 58);
    assert(((x as char) as u32) == x);
}

proof fn lemma_decimal_digits(n: nat)
    ensures
        decimal(n).len() > 0,
        forall|i: int| 0 <= i < decimal(n).len() ==> is_digit(#[trigger] decimal(n)[i]),
        digits_value(decimal(n)) == n,
    decreases n,
{
    if n < 10 {
        lemma_digit_char(n);
        let d = decimal(n);
        assert(d.drop_last() =~= Seq::<char>::empty());
        assert(d.last() == digit_char(n));
        assert(digits_value(d) == digits_value(d.drop_last()) * 10 + ((d.last() as u32) - 48) as nat);
    } else {
        lemma_decimal_digits(n / 10);
        lemma_digit_char(n % 10);
        let d = decimal(n);
        assert(d.drop_last() =~= decimal(n / 10));
        assert(d.last() == digit_char(n % 10));
        assert(digits_value(d) == digits_value(d.drop_last()) * 10 + ((d.last() as u32) - 48) as nat);
        assert((n / 10) * 10 + n % 10 == n);
    }
}

proof fn lemma_two_digits(n: nat)
    requires
        n < 60,
    ensures
        two_digits(n).len() > 0,
        forall|i: int| 0 <= i < two_digits(n).len() ==> is_digit(#[trigger] two_digits(n)[i]),
        digits_value(two_digits(n)) == n,
{
    if n < 10 {
        lemma_digit_char(n);
        let t = two_digits(n);
        assert(t.drop_last() =~= seq!['0']);
        assert(seq!['0'].drop_last() =~= Seq::<char>::empty());
        let z = seq!['0'];
        assert(z.last() == '0');
        assert(('0' as u32) == 48);
        assert(digits_value(z) == digits_value(z.drop_last()) * 10 + ((z.last() as u32) - 48) as nat);
        assert(digits_value(z) == 0);
        assert(t.last() == digit_char(n));
        assert(digits_value(t) == digits_value(t.drop_last()) * 10 + ((t.last() as u32) - 48) as nat);
    } else {
        lemma_decimal_digits(n);
    }
}

proof fn lemma_split_without_sep(s: Seq<char>, sep: char)
    requires
        forall|i: int| 0 <= i < s.len() ==> s[i] != sep,
    ensures
        split_on(s, sep) == seq![s],
    decreases s.len(),
{
    if s.len() > 0 {
        lemma_split_without_sep(s.drop_last(), sep);
        assert(s.drop_last().push(s.last()) =~= s);
        assert(split_on(s, sep) =~= seq![s]);
    } else {
        assert(s =~= Seq::<char>::empty());
    }
}

proof fn lemma_split_append(x: Seq<char>, b: Seq<char>, sep: char)
    requires
        forall|i: int| 0 <= i < b.len() ==> b[i] != sep,
    ensures
        split_on(x + b, sep).len() == split_on(x, sep).len(),
        split_on(x + b, sep) == split_on(x, sep).update(
            split_on(x, sep).len() - 1,
            split_on(x, sep).last() + b,
        ),
    decreases b.len(),
{
    crate::text::lemma_split_nonempty(x, sep);
    if b.len() == 0 {
        assert(x + b =~= x);
        assert(split_on(x, sep).last() + b =~= split_on(x, sep).last());
        assert(split_on(x, sep).update(split_on(x, sep).len() - 1, split_on(x, sep).last())
            =~= split_on(x, sep));
    } else {
        lemma_split_append(x, b.drop_last(), sep);
        assert((x + b).drop_last() =~= x + b.drop_last());
        assert((x + b).last() == b.last());
        let r = split_on(x, sep);
        assert((r.last() + b.drop_last()).push(b.last()) =~= r.last() + b);
        assert(split_on(x + b, sep) =~= r.update(r.len() - 1, r.last() + b));
    }
}

/// The duration texts that track parsing writes (`"m:ss"`, from whole
/// seconds) read back as the same time in milliseconds, for every number of
/// minutes that fits in 32 bits.
pub proof fn law_clock_text_round_trip(secs: nat)
    requires
        secs / 60 <= u32::MAX,
    ensures
        duration_text_ms(clock_text(secs)) == secs * 1000,
{
    let m = decimal(secs / 60);
    let x = two_digits(secs % 60);
    lemma_decimal_digits(secs / 60);
    lemma_two_digits(secs % 60);
    assert forall|i: int| 0 <= i < m.len() implies m[i] != ':' by {
        assert(is_digit(m[i]));
    }
    assert forall|i: int| 0 <= i < x.len() implies x[i] != ':' by {
        assert(is_digit(x[i]));
    }
    lemma_split_without_sep(m, ':');
    let mc = m.push(':');
    assert(mc.drop_last() =~= m);
    assert(split_on(mc, ':') =~= seq![m, Seq::<char>::empty()]);
    lemma_split_append(mc, x, ':');
    assert(Seq::<char>::empty() + x =~= x);
    let parts = split_on(clock_text(secs), ':');
    assert(parts =~= seq![m, x]);
    assert(unsigned_digits(m) == m);
    assert(unsigned_digits(x) == x);
    assert(parse_u32_text(m) == Some((secs / 60) as u32));
    assert(parse_u32_text(x) == Some((secs % 60) as u32));
    assert((secs / 60) * 60 + secs % 60 == secs);
}


/// What each engine event does to the relay: `Playing` and `Paused` move
/// the position to the reported one and start or stop playback, `Stopped`
/// stops playback where it is, so that the next tick reports nothing, and
/// any other event changes nothing and reports nothing. No event changes
/// the known duration, and every report carries it.
pub proof fn law_event_effects(s: PlayerState, ev: RawPlayerEvent)
    ensures
        relay_event(s, ev).0.duration_ms == s.duration_ms,
        ev matches RawPlayerEvent::Playing { position_ms } ==> relay_event(s, ev).0.is_playing
            && relay_event(s, ev).0.position_ms == position_ms && relay_event(s, ev).1 == Some(
            PlaybackEvent::Playing { position_ms, duration_ms: s.duration_ms },
        ),
        ev matches RawPlayerEvent::Paused { position_ms } ==> !relay_event(s, ev).0.is_playing
            && relay_event(s, ev).0.position_ms == position_ms && relay_event(s, ev).1 == Some(
            PlaybackEvent::Paused { position_ms, duration_ms: s.duration_ms },
        ),
        ev == RawPlayerEvent::Stopped ==> !relay_event(s, ev).0.is_playing && relay_event(s, ev).0.position_ms
            == s.position_ms && relay_event(s, ev).1 == Some(PlaybackEvent::Stopped) && relay_tick(
            relay_event(s, ev).0,
        ).1 is None,
        ev == RawPlayerEvent::Other ==> relay_event(s, ev) == (s, None::<PlaybackEvent>),
{
}


/// A progress tick advances the position by one tick, stopping at the known
/// duration, and reports it, only while playing a track of known duration;
/// otherwise it changes nothing and reports nothing.
pub proof fn law_tick_effects(s: PlayerState)
    ensures
        !s.is_playing || s.duration_ms == 0 ==> relay_tick(s) == (s, None::<PlaybackEvent>),
        s.is_playing && s.duration_ms > 0 ==> {
            let p = if s.position_ms + 250 < s.duration_ms {
                s.position_ms + 250
            } else {
                s.duration_ms as int
            };
            &&& relay_tick(s).0 == PlayerState { position_ms: p as u32, ..s }
            &&& relay_tick(s).1 == Some(PlaybackEvent::Progress { position_ms: p as u32, duration_ms: s.duration_ms })
        },
{
}

} // verus!
