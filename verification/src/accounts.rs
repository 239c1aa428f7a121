//! The multi-account token book: which Spotify accounts are paired, which
//! one is active, and how pairing, verification, token refresh, switching
//! and logout change it; plus the token expiry arithmetic.
use vstd::prelude::*;
use crate::cache::StringMap;
use crate::text::{chars_of, map_chars, str_equal, string_push};

verus! {

/// A point in time: whole seconds since the Unix epoch and the nanoseconds
/// past that second.
#[derive(Clone, Copy, Debug, PartialEq, Eq, Structural)]
pub struct Instant {
    pub secs: i64,
    pub nanos: u32,
}

/// An instant as nanoseconds since the epoch.
pub open spec fn nanos_of(t: Instant) -> int {
    t.secs * 1_000_000_000 + t.nanos
}

/// An OAuth token as it is stored: the fields the token cache file keeps.
#[derive(Debug)]
pub struct StoredToken {
    pub access_token: String,
    pub expires_in_secs: i64,
    pub expires_at: Option<Instant>,
    pub refresh_token: Option<String>,
    pub scopes: Vec<String>,
}

/// A paired account: its token and avatar URL.
#[derive(Debug)]
pub struct UserProfile {
    pub token: StoredToken,
    pub image_url: Option<String>,
}

/// The paired accounts by display name, and the active one.
pub struct AccountBook {
    active_user: Option<String>,
    users: StringMap<UserProfile>,
}

/// The name legacy single-token caches are filed under.
pub open spec fn default_user_name() -> Seq<char> {
    "Spotify User"@
}

/// The book as the contracts see it.
pub struct AccountsView {
    pub active: Option<Seq<char>>,
    pub users: Map<Seq<char>, UserProfile>,
}

impl View for AccountBook {
    type V = AccountsView;

    closed spec fn view(&self) -> AccountsView {
        AccountsView {
            active: match self.active_user {
                Some(a) => Some(a@),
                None => None,
            },
            users: self.users@,
        }
    }
}

/// The book after a logout of `name`: the account is gone; if it was the
/// active one nobody is active; then, if nobody is active and accounts
/// remain, some remaining account is.
pub open spec fn after_logout(before: AccountsView, name: Seq<char>, after: AccountsView) -> bool {
    let users = before.users.remove(name);
    &&& after.users == users
    &&& if before.active == Some(name) || before.active is None {
        if users == Map::<Seq<char>, UserProfile>::empty() {
            after.active is None
        } else {
            after.active matches Some(a) && users.contains_key(a)
        }
    } else {
        after.active == before.active
    }
}

impl AccountBook {
    /// The account map is well formed.
    pub closed spec fn wf(&self) -> bool {
        self.users.wf()
    }

    /// No accounts, nobody active.
    pub fn new() -> (b: AccountBook)
        ensures
            b.wf(),
            b@.active is None,
            b@.users == Map::<Seq<char>, UserProfile>::empty(),
    {
        AccountBook { active_user: None, users: StringMap::new() }
    }

    /// A book holding a legacy single token: filed under "Spotify User",
    /// which becomes the active account.
    pub fn from_legacy_token(token: StoredToken) -> (b: AccountBook)
        ensures
            b.wf(),
            b@.active == Some(default_user_name()),
            b@.users == Map::<Seq<char>, UserProfile>::empty().insert(
                default_user_name(),
                UserProfile { token, image_url: None },
            ),
    {
        let mut users = StringMap::new();
        users.insert("Spotify User".to_owned(), UserProfile { token, image_url: None });
        AccountBook { active_user: Some("Spotify User".to_owned()), users }
    }

    /// The active account's name.
    pub fn active_user(&self) -> (a: Option<&String>)
        ensures
            match a {
                Some(s) => self@.active == Some(s@),
                None => self@.active is None,
            },
    {
        match &self.active_user {
            Some(s) => Some(s),
            None => None,
        }
    }

    /// The profile of account `name`.
    pub fn user(&self, name: &str) -> (p: Option<&UserProfile>)
        requires
            self.wf(),
        ensures
            match p {
                Some(v) => self@.users.contains_key(name@) && *v == self@.users[name@],
                None => !self@.users.contains_key(name@),
            },
    {
        self.users.get(name)
    }

    /// The names of the paired accounts.
    pub fn user_names(&self) -> (names: Vec<String>)
        requires
            self.wf(),
        ensures
            forall|k: Seq<char>| self@.users.contains_key(k) <==> crate::cache::texts(names@).contains(k),
            crate::cache::texts(names@).no_duplicates(),
    {
        self.users.keys()
    }

    /// Number of paired accounts.
    pub fn user_count(&self) -> (n: usize)
        requires
            self.wf(),
        ensures
            n == self@.users.len(),
    {
        self.users.len()
    }

    /// Stores a profile under `name` (replacing one already there); the
    /// active account stays.
    pub fn insert_user(&mut self, name: String, profile: UserProfile)
        requires
            old(self).wf(),
        ensures
            final(self).wf(),
            final(self)@.active == old(self)@.active,
            final(self)@.users == old(self)@.users.insert(name@, profile),
    {
        self.users.insert(name, profile);
    }

    /// Makes `name` the active account (switching accounts).
    pub fn select(&mut self, name: String)
        requires
            old(self).wf(),
        ensures
            final(self).wf(),
            final(self)@.active == Some(name@),
            final(self)@.users == old(self)@.users,
    {
        self.active_user = Some(name);
    }

    /// Records a completed pairing: the account is stored under its display
    /// name and becomes the active one.
    pub fn record_paired(&mut self, name: String, token: StoredToken, image_url: Option<String>)
        requires
            old(self).wf(),
        ensures
            final(self).wf(),
            final(self)@.active == Some(name@),
            final(self)@.users == old(self)@.users.insert(name@, UserProfile { token, image_url }),
    {
        let key = name.clone();
        self.active_user = Some(name);
        self.users.insert(key, UserProfile { token, image_url });
    }

    /// Records a verified session of account `active`, now known as
    /// `current_name`, with its refreshed token and avatar. When the name
    /// changed, the profile moves to the new name, which becomes the active
    /// account; an account that is not in the book is left alone.
    pub fn record_verified_session(
        &mut self,
        active: &str,
        current_name: String,
        token: StoredToken,
        image_url: Option<String>,
    )
        requires
            old(self).wf(),
        ensures
            final(self).wf(),
            !old(self)@.users.contains_key(active@) ==> final(self)@ == old(self)@,
            old(self)@.users.contains_key(active@) && current_name@ == active@ ==> final(self)@
                == (AccountsView {
                users: old(self)@.users.insert(active@, UserProfile { token, image_url }),
                ..old(self)@
            }),
            old(self)@.users.contains_key(active@) && current_name@ != active@ ==> final(self)@
                == (AccountsView {
                active: Some(current_name@),
                users: old(self)@.users.remove(active@).insert(
                    current_name@,
                    UserProfile { token, image_url },
                ),
            }),
    {
        if str_equal(current_name.as_str(), active) {
            if self.users.get(active).is_some() {
                self.users.insert(current_name, UserProfile { token, image_url });
            }
        } else {
            match self.users.remove(active) {
                Some(_) => {
                    let key = current_name.clone();
                    self.users.insert(key, UserProfile { token, image_url });
                    self.active_user = Some(current_name);
                },
                None => {
                    assert(self@.users =~= old(self)@.users);
                },
            }
        }
    }

    /// After a token refresh for account `active`: stores `token` when its
    /// access token differs from the stored one and says whether it did (so
    /// that the book is written back).
    pub fn record_refreshed_token(&mut self, active: &str, token: StoredToken) -> (changed: bool)
        requires
            old(self).wf(),
        ensures
            final(self).wf(),
            changed == (old(self)@.users.contains_key(active@)
                && old(self)@.users[active@].token.access_token@ != token.access_token@),
            changed ==> final(self)@ == (AccountsView {
                users: old(self)@.users.insert(
                    active@,
                    UserProfile { token, image_url: old(self)@.users[active@].image_url },
                ),
                ..old(self)@
            }),
            !changed ==> final(self)@ == old(self)@,
    {
        let differs = match self.users.get(active) {
            Some(p) => !str_equal(p.token.access_token.as_str(), token.access_token.as_str()),
            None => false,
        };
        if differs {
            match self.users.remove(active) {
                Some(p) => {
                    self.users.insert(active.to_owned(), UserProfile { token, image_url: p.image_url });
                    assert(old(self)@.users.remove(active@).insert(active@, UserProfile { token, image_url: p.image_url })
                        =~= old(self)@.users.insert(active@, UserProfile { token, image_url: p.image_url }));
                },
                None => {},
            }
        }
        differs
    }

    /// Logs out account `name` and says whether it was the active one. The
    /// account is removed; if it was active nobody is; if then nobody is
    /// active while accounts remain, one of them becomes active.
    pub fn logout(&mut self, name: &str) -> (was_active: bool)
        requires
            old(self).wf(),
        ensures
            final(self).wf(),
            was_active == (old(self)@.active == Some(name@)),
            after_logout(old(self)@, name@, final(self)@),
    {
        let _ = self.users.remove(name);
        let was_active = match &self.active_user {
            Some(a) => str_equal(a.as_str(), name),
            None => false,
        };
        if was_active {
            self.active_user = None;
        }
        if self.active_user.is_none() {
            let names = self.users.keys();
            if names.len() > 0 {
                assert(crate::cache::texts(names@)[0] == names@[0]@);
                assert(crate::cache::texts(names@).contains(names@[0]@));
                assert(self@.users.contains_key(names@[0]@));
                assert(self@.users != Map::<Seq<char>, UserProfile>::empty()) by {
                    assert(!Map::<Seq<char>, UserProfile>::empty().contains_key(names@[0]@));
                }
                self.active_user = Some(names[0].clone());
            } else {
                assert(self@.users =~= Map::<Seq<char>, UserProfile>::empty()) by {
                    assert forall|k: Seq<char>| !self@.users.contains_key(k) by {
                        if self@.users.contains_key(k) {
                            assert(crate::cache::texts(names@).contains(k));
                        }
                    }
                }
            }
        }
        was_active
    }
}

/// Whether `token` counts as expired at `now`: it has no expiry, or expires
/// within the next ten seconds.
pub open spec fn token_expired(token_expiry: Option<Instant>, now: Instant) -> bool {
    match token_expiry {
        None => true,
        Some(e) => nanos_of(now) + 10_000_000_000 >= nanos_of(e),
    }
}

/// `Token::is_expired` at the given time: no expiry, or expiring within ten
/// seconds.
pub fn is_expired(token: &StoredToken, now: Instant) -> (r: bool)
    requires
        now.nanos < 1_000_000_000,
        token.expires_at matches Some(e) ==> e.nanos < 1_000_000_000,
    ensures
        r == token_expired(token.expires_at, now),
{
    match token.expires_at {
        None => true,
        Some(e) => {
            let a: i128 = (now.secs as i128) * 1_000_000_000 + (now.nanos as i128) + 10_000_000_000;
            let b: i128 = (e.secs as i128) * 1_000_000_000 + (e.nanos as i128);
            a >= b
        },
    }
}

/// Whole seconds from `now` until `margin_secs` before `expires_at`, when
/// that is at least one second away; `None` when the expiry is unknown or
/// the moment has passed.
pub open spec fn wait_before_expiry(expires_at: Option<Instant>, margin_secs: i64, now: Instant) -> Option<u64> {
    match expires_at {
        None => None,
        Some(e) => {
            let diff = nanos_of(e) - margin_secs * 1_000_000_000 - nanos_of(now);
            if diff >= 1_000_000_000 {
                Some((diff / 1_000_000_000) as u64)
            } else {
                None
            }
        },
    }
}

/// The instants and margins the expiry wait is defined on: a margin that a
/// duration in milliseconds can hold (`|margin| <= i64::MAX / 1000`) and
/// instants within the same bound in seconds, which every instant a
/// calendar date-time can represent (about 262,000 years either side of the
/// epoch) meets.
pub open spec fn expiry_inputs_valid(expires_at: Option<Instant>, margin_secs: i64, now: Instant) -> bool {
    &&& -(i64::MAX / 1000) <= margin_secs <= i64::MAX / 1000
    &&& -(i64::MAX / 1000) <= now.secs <= i64::MAX / 1000
    &&& now.nanos < 1_000_000_000
    &&& expires_at matches Some(e) ==> -(i64::MAX / 1000) <= e.secs <= i64::MAX / 1000 && e.nanos
        < 1_000_000_000
}

/// How long to wait before rebuilding the session ahead of token expiry
/// (`margin_secs` before it, a negative margin meaning after it), in whole
/// seconds.
pub fn seconds_until_expiry(expires_at: Option<Instant>, margin_secs: i64, now: Instant) -> (r: Option<u64>)
    requires
        expiry_inputs_valid(expires_at, margin_secs, now),
    ensures
        r == wait_before_expiry(expires_at, margin_secs, now),
{
    match expires_at {
        None => None,
        Some(e) => {
            let diff: i128 = (e.secs as i128) * 1_000_000_000 + (e.nanos as i128) - (margin_secs as i128)
                * 1_000_000_000 - ((now.secs as i128) * 1_000_000_000 + (now.nanos as i128));
            if diff >= 1_000_000_000 {
                let whole: i128 = diff / 1_000_000_000;
                assert(diff < 18446744073709551616 * 1_000_000_000);
                assert(whole <= u64::MAX) by (nonlinear_arith)
                    requires
                        whole == diff / 1_000_000_000,
                        diff < 18446744073709551616 * 1_000_000_000,
                        diff >= 1_000_000_000,
                ;
                Some(whole as u64)
            } else {
                None
            }
        },
    }
}


// ---------------------------------------------------------------------------
// The accounts screen
// ---------------------------------------------------------------------------

/// What `char::to_uppercase` yields for `c`.
pub uninterp spec fn uppercase_of(c: char) -> Seq<char>;

/// `char::to_uppercase`, collected into a string: the Unicode upper-case
/// mapping of `c` (one or more characters). Stated here: the result is a
/// function of `c`; an ASCII lower-case letter maps to its capital and any
/// other ASCII character to itself. The mapping of other characters is not
/// stated.
#[verifier::external_body]
fn uppercase_text(c: char) -> (s: String)
    ensures
        s@ == uppercase_of(c),
        ('a' <= c && c <= 'z') ==> s@ == seq![((c as u32) - 32) as char],
        ((c as u32) < 128 && !('a' <= c && c <= 'z')) ==> s@ == seq![c],
{
    c.to_uppercase().to_string()
}

/// The letter shown on an account's avatar: the upper-case form of the
/// name's first character, or `U` for an empty name.
pub open spec fn avatar_letter_of(name: Seq<char>) -> Seq<char> {
    uppercase_of(if name.len() > 0 { name[0] } else { 'U' })
}

/// The letter shown on an account's avatar.
pub fn avatar_letter(name: &str) -> (letter: String)
    ensures
        letter@ == avatar_letter_of(name@),
{
    let cs = chars_of(name);
    let first = if cs.len() > 0 {
        cs[0]
    } else {
        'U'
    };
    uppercase_text(first)
}

/// The cache name of an account's avatar: `profile_` and the name with
/// spaces written as `_`.
pub fn profile_image_id(name: &str) -> (id: String)
    ensures
        id@ == "profile_"@ + map_chars(name@, |c: char| if c == ' ' { '_' } else { c }),
{
    let cs = chars_of(name);
    let mut id = "profile_".to_owned();
    let ghost start = id@;
    let mut i: usize = 0;
    while i < cs.len()
        invariant
            i <= cs.len(),
            cs@ == name@,
            id@ == start + map_chars(cs@.take(i as int), |c: char| if c == ' ' { '_' } else { c }),
        decreases cs.len() - i,
    {
        let c = cs[i];
        string_push(&mut id, if c == ' ' { '_' } else { c });
        i += 1;
        assert(id@ =~= start + map_chars(cs@.take(i as int), |c: char| if c == ' ' { '_' } else { c }));
    }
    assert(cs@.take(cs.len() as int) =~= cs@);
    id
}

/// Where opening the Spotify screen leads.
#[derive(Clone, Copy, Debug, PartialEq, Eq, Structural)]
pub enum EntryScreen {
    /// No account is paired yet: pair one.
    Pairing,
    /// A session is running: the dashboard.
    Dashboard,
    /// Accounts exist but none is signed in: pick one.
    AccountPicker,
}

/// The screen opening Spotify leads to, from whether any account is paired
/// and whether a session is signed in.
pub fn entry_screen(has_accounts: bool, signed_in: bool) -> (screen: EntryScreen)
    ensures
        screen == (if !has_accounts {
            EntryScreen::Pairing
        } else if signed_in {
            EntryScreen::Dashboard
        } else {
            EntryScreen::AccountPicker
        }),
{
    if !has_accounts {
        EntryScreen::Pairing
    } else if signed_in {
        EntryScreen::Dashboard
    } else {
        EntryScreen::AccountPicker
    }
}

/// A scheduled rebuild never falls after the margin before expiry: the
/// wait ends at least `margin_secs` before the token expires, and less
/// than a second earlier than that; nothing is scheduled without a known
/// expiry.
pub proof fn law_reconnect_before_expiry(expires_at: Option<Instant>, margin_secs: i64, now: Instant)
    requires
        expiry_inputs_valid(expires_at, margin_secs, now),
    ensures
        match wait_before_expiry(expires_at, margin_secs, now) {
            Some(w) => expires_at matches Some(e) && w >= 1 && nanos_of(now) + w * 1_000_000_000
                <= nanos_of(e) - margin_secs * 1_000_000_000 < nanos_of(now) + (w + 1) * 1_000_000_000,
            None => true,
        },
        expires_at is None ==> wait_before_expiry(expires_at, margin_secs, now) is None,
{
    match expires_at {
        Some(e) => {
            let diff = nanos_of(e) - margin_secs * 1_000_000_000 - nanos_of(now);
            if diff >= 1_000_000_000 {
                let w = diff / 1_000_000_000;
                assert(w * 1_000_000_000 <= diff < (w + 1) * 1_000_000_000) by (nonlinear_arith)
                    requires
                        w == diff / 1_000_000_000,
                        diff >= 1_000_000_000,
                ;
                assert(w >= 1) by (nonlinear_arith)
                    requires
                        w == diff / 1_000_000_000,
                        diff >= 1_000_000_000,
                ;
                assert(diff < 18446744073709551616 * 1_000_000_000);
                assert(w <= u64::MAX) by (nonlinear_arith)
                    requires
                        w == diff / 1_000_000_000,
                        diff < 18446744073709551616 * 1_000_000_000,
                        diff >= 1_000_000_000,
                ;
            }
        },
        None => {},
    }
}

/// Logging out leaves no trace of the account, and someone remains active
/// whenever accounts remain and the active account was the one logged out.
pub proof fn law_logout_removes(before: AccountsView, name: Seq<char>, after: AccountsView)
    requires
        after_logout(before, name, after),
    ensures
        !after.users.contains_key(name),
        after.active matches Some(a) ==> after.users.contains_key(a) || a == before.active->0,
        before.active == Some(name) && after.users != Map::<Seq<char>, UserProfile>::empty()
            ==> after.active is Some,
{
}

} // verus!
