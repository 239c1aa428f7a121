//! Remote pairing: the pairing link, the server-sent-event stream that
//! delivers the token (cut into lines, `data:` payloads picked out), the
//! expiry stamped on a token that carries none, and the identity a paired
//! account is filed under.
use vstd::prelude::*;
use crate::json::{JsonValue, as_i64, field, member};
use crate::text::{chars_of, has_prefix, lossy_text, push_str, string_of, text_from_bytes, trim_chars, trimmed};

verus! {

// ---------------------------------------------------------------------------
// The pairing link
// ---------------------------------------------------------------------------

/// The page a phone opens to pair this kiosk under `session_id`.
pub fn pairing_url(session_id: &str) -> (url: String)
    ensures
        url@ == "https://raudio.bryantfuentes.com/auth?session="@ + session_id@,
{
    let mut url = "https://raudio.bryantfuentes.com/auth?session=".to_owned();
    push_str(&mut url, session_id);
    url
}

/// The event stream the kiosk listens on for the token of `session_id`.
pub fn pairing_wait_url(session_id: &str) -> (url: String)
    ensures
        url@ == "https://raudio.bryantfuentes.com/wait?session="@ + session_id@,
{
    let mut url = "https://raudio.bryantfuentes.com/wait?session=".to_owned();
    push_str(&mut url, session_id);
    url
}

// ---------------------------------------------------------------------------
// The event stream
// ---------------------------------------------------------------------------

/// The line feed byte.
pub open spec fn is_line_feed(b: u8) -> bool {
    b == 10
}

/// `line` is a whole line at the front of a stream: it ends with its first
/// line feed.
pub open spec fn is_first_line(line: Seq<u8>) -> bool {
    &&& line.len() > 0
    &&& is_line_feed(line.last())
    &&& forall|j: int| 0 <= j < line.len() - 1 ==> !is_line_feed(#[trigger] line[j])
}

/// The bytes received from the event stream that have not been cut into
/// lines yet.
pub struct SseBuffer {
    pending: Vec<u8>,
}

impl View for SseBuffer {
    type V = Seq<u8>;

    closed spec fn view(&self) -> Seq<u8> {
        self.pending@
    }
}

impl SseBuffer {
    /// Nothing received yet.
    pub fn new() -> (b: SseBuffer)
        ensures
            b@ == Seq::<u8>::empty(),
    {
        SseBuffer { pending: Vec::new() }
    }

    /// Appends a received chunk.
    pub fn push_chunk(&mut self, chunk: &[u8])
        ensures
            final(self)@ == old(self)@ + chunk@,
    {
        let mut i: usize = 0;
        let ghost start = self.pending@;
        while i < chunk.len()
            invariant
                i <= chunk.len(),
                self.pending@ == start + chunk@.take(i as int),
            decreases chunk.len() - i,
        {
            self.pending.push(chunk[i]);
            i += 1;
            assert(self.pending@ =~= start + chunk@.take(i as int));
        }
        assert(chunk@.take(chunk.len() as int) =~= chunk@);
    }

    /// Cuts the first complete line (with its line feed) off the front;
    /// `None`, leaving the buffer as it is, while no line feed has arrived.
    pub fn take_line(&mut self) -> (line: Option<Vec<u8>>)
        ensures
            match line {
                Some(l) => is_first_line(l@) && old(self)@ == l@ + final(self)@,
                None => final(self)@ == old(self)@ && forall|j: int|
                    0 <= j < old(self)@.len() ==> !is_line_feed(#[trigger] old(self)@[j]),
            },
    {
        let mut k: usize = 0;
        while k < self.pending.len() && self.pending[k] != 10
            invariant
                k <= self.pending.len(),
                forall|j: int| 0 <= j < k ==> !is_line_feed(#[trigger] self.pending@[j]),
            decreases self.pending.len() - k,
        {
            k += 1;
        }
        if k == self.pending.len() {
            return None;
        }
        let mut line: Vec<u8> = Vec::new();
        let mut rest: Vec<u8> = Vec::new();
        let mut i: usize = 0;
        while i < self.pending.len()
            invariant
                k < self.pending.len(),
                i <= self.pending.len(),
                line@ == self.pending@.take(if i <= k { i as int } else { k as int + 1 }),
                rest@ == (if i <= k + 1 {
                    Seq::<u8>::empty()
                } else {
                    self.pending@.subrange(k as int + 1, i as int)
                }),
            decreases self.pending.len() - i,
        {
            if i <= k {
                line.push(self.pending[i]);
            } else {
                rest.push(self.pending[i]);
            }
            i += 1;
            assert(line@ =~= self.pending@.take(if i <= k { i as int } else { k as int + 1 }));
            assert(rest@ =~= (if i <= k + 1 {
                Seq::<u8>::empty()
            } else {
                self.pending@.subrange(k as int + 1, i as int)
            }));
        }
        assert(self.pending@ =~= line@ + rest@);
        self.pending = rest;
        Some(line)
    }
}

/// The payload of an event-stream line (as text): the trimmed rest after
/// `data:` when the trimmed line starts with it.
pub open spec fn data_payload(line: Seq<char>) -> Option<Seq<char>> {
    let t = trimmed(line);
    if has_prefix(t, "data:"@) {
        Some(trimmed(t.skip(5)))
    } else {
        None
    }
}

/// The `data:` payload of one event-stream line, trimmed; `None` for any
/// other line.
pub fn line_payload(line: &str) -> (payload: Option<String>)
    ensures
        match payload {
            Some(p) => data_payload(line@) == Some(p@),
            None => data_payload(line@) is None,
        },
{
    proof {
        reveal_strlit("data:");
    }
    let t = trim_chars(&chars_of(line));
    let tag = chars_of("data:");
    if t.len() >= 5 && crate::text::chars_equal(&crate::text::chars_range(&t, 0, 5), &tag) {
        let after = crate::text::chars_range(&t, 5, t.len());
        assert(after@ =~= t@.skip(5));
        let p = trim_chars(&after);
        Some(string_of(&p))
    } else {
        assert(!has_prefix(t@, "data:"@)) by {
            if t@.len() >= 5 {
                assert(t@.take(5) =~= t@.subrange(0, 5));
            }
        }
        None
    }
}

/// The `data:` payload of one received line (bytes, line feed included),
/// read as text the way `String::from_utf8_lossy` reads it.
pub fn event_payload(line: &Vec<u8>) -> (payload: Option<String>)
    ensures
        match payload {
            Some(p) => data_payload(lossy_text(line@)) == Some(p@),
            None => data_payload(lossy_text(line@)) is None,
        },
{
    let text = text_from_bytes(line.as_slice());
    line_payload(text.as_str())
}

// ---------------------------------------------------------------------------
// The delivered token
// ---------------------------------------------------------------------------

/// The range of whole seconds a `chrono::TimeDelta` can hold.
pub open spec fn delta_secs_in_range(secs: int) -> bool {
    -(i64::MAX / 1000) <= secs <= i64::MAX / 1000
}

/// Seconds from now to the expiry stamped on a delivered token that has no
/// `expires_at`: its `expires_in` when that is an integer within range, an
/// hour otherwise. `None` when the token already carries an `expires_at`.
pub open spec fn stamped_expiry_secs(token: JsonValue) -> Option<i64> {
    if member(token, "expires_at"@) is Some {
        None
    } else {
        let secs = match as_i64(field(token, "expires_in"@)) {
            Some(s) => s,
            None => 3600,
        };
        Some(if delta_secs_in_range(secs as int) { secs } else { 3600 })
    }
}

/// How far from now to stamp `expires_at` on a delivered token, when it has
/// none.
pub fn expiry_to_stamp(token: &JsonValue) -> (secs: Option<i64>)
    ensures
        secs == stamped_expiry_secs(*token),
{
    proof {
        reveal_strlit("expires_at");
        reveal_strlit("expires_in");
    }
    if token.get("expires_at").is_some() {
        return None;
    }
    let secs: i64 = match token.get("expires_in") {
        Some(v) => match v.as_i64() {
            Some(s) => s,
            None => 3600,
        },
        None => 3600,
    };
    let limit: i64 = i64::MAX / 1000;
    if -limit <= secs && secs <= limit {
        Some(secs)
    } else {
        Some(3600)
    }
}

/// The name and avatar a paired account is filed under: its display name
/// ("Spotify User" when it has none) and its first image; when its profile
/// could not be read, "Spotify User" and no avatar.
pub fn paired_identity(profile: Option<(Option<String>, Option<String>)>) -> (r: (String, Option<String>))
    ensures
        r.0@ == match profile {
            Some((Some(n), _)) => n@,
            _ => "Spotify User"@,
        },
        r.1 == match profile {
            Some((_, img)) => img,
            None => None,
        },
{
    match profile {
        Some((name, image)) => {
            let n = match name {
                Some(n) => n,
                None => "Spotify User".to_owned(),
            };
            (n, image)
        },
        None => ("Spotify User".to_owned(), None),
    }
}

/// Cutting lines off the stream loses and reorders nothing: the lines taken
/// so far followed by what is pending are exactly the bytes received.
pub proof fn law_lines_partition_stream(before: Seq<u8>, line: Seq<u8>, after: Seq<u8>, chunk: Seq<u8>)
    requires
        before == line + after,
        is_first_line(line),
    ensures
        before + chunk == line + (after + chunk),
        forall|j: int| 0 <= j < line.len() ==> (is_line_feed(#[trigger] line[j]) <==> j == line.len() - 1),
{
    assert(before + chunk =~= line + (after + chunk));
}

} // verus!
