//! Character-level text helpers shared by the parsers: decimal rendering,
//! splitting, trimming and prefix tests, each with its meaning as a spec
//! function over `Seq<char>`.
use vstd::prelude::*;
use vstd::string::StringExecFns;

verus! {

// ---------------------------------------------------------------------------
// Trusted std calls
// ---------------------------------------------------------------------------

/// `String::push`: appends one character to the end of the string.
#[verifier::external_body]
pub(crate) fn string_push(s: &mut String, c: char)
    ensures
        final(s)@ == old(s)@.push(c),
{
    s.push(c)
}

/// The Unicode `White_Space` property, which `char::is_whitespace` tests.
pub uninterp spec fn is_white_space(c: char) -> bool;

/// The Unicode `Alphabetic` or `Numeric` property, which `char::is_alphanumeric` tests.
pub uninterp spec fn is_alphanumeric(c: char) -> bool;

/// `char::is_whitespace`. Its documentation defines it by the Unicode
/// `White_Space` property; among ASCII characters exactly tab, line feed,
/// vertical tab, form feed, carriage return and space have it. Which
/// non-ASCII characters have it is not stated here.
#[verifier::external_body]
pub(crate) fn char_is_whitespace(c: char) -> (b: bool)
    ensures
        b == is_white_space(c),
        (c as u32) < 128 ==> (b <==> (c == ' ' || (9 <= (c as u32) && (c as u32) <= 13))),
{
    c.is_whitespace()
}

/// `char::is_alphanumeric`: the Unicode `Alphabetic` or `Numeric` property.
/// Among ASCII characters exactly the digits and the Latin letters have it;
/// which non-ASCII characters have it is not stated here.
#[verifier::external_body]
pub(crate) fn char_is_alphanumeric(c: char) -> (b: bool)
    ensures
        b == is_alphanumeric(c),
        (c as u32) < 128 ==> (b <==> is_ascii_alphanumeric(c)),
{
    c.is_alphanumeric()
}

/// The text `String::from_utf8_lossy` makes of `bytes`.
pub uninterp spec fn lossy_text(bytes: Seq<u8>) -> Seq<char>;

/// `String::from_utf8_lossy`: the bytes as text, each invalid sequence
/// replaced by U+FFFD. Stated here: the result is a function of the bytes,
/// and valid UTF-8 is decoded unchanged. What the replacement makes of
/// invalid input is not stated.
#[verifier::external_body]
pub(crate) fn text_from_bytes(bytes: &[u8]) -> (s: String)
    ensures
        s@ == lossy_text(bytes@),
        vstd::utf8::valid_utf8(bytes@) ==> s@ == vstd::utf8::decode_utf8(bytes@),
{
    String::from_utf8_lossy(bytes).into_owned()
}

// ---------------------------------------------------------------------------
// Spec vocabulary
// ---------------------------------------------------------------------------

pub open spec fn is_ascii_alphanumeric(c: char) -> bool {
    ('0' <= c && c <= '9') || ('a' <= c && c <= 'z') || ('A' <= c && c <= 'Z')
}

/// The ASCII digit for `d` (`0 <= d < 10`).
pub open spec fn digit_char(d: nat) -> char {
    ((d + 48) as u32) as char
}

/// The decimal rendering of `n`, without leading zeros (as `{}` prints it).
pub open spec fn decimal(n: nat) -> Seq<char>
    decreases n,
{
    if n < 10 {
        seq![digit_char(n)]
    } else {
        decimal(n / 10).push(digit_char(n % 10))
    }
}

/// `n` printed with `{:02}`: zero-padded to at least two digits.
pub open spec fn two_digits(n: nat) -> Seq<char> {
    if n < 10 {
        seq!['0'].push(digit_char(n))
    } else {
        decimal(n)
    }
}

/// `format!("{}:{:02}", secs / 60, secs % 60)`.
pub open spec fn clock_text(secs: nat) -> Seq<char> {
    decimal(secs / 60).push(':') + two_digits(secs % 60)
}

/// `s` starts with `p`.
pub open spec fn has_prefix(s: Seq<char>, p: Seq<char>) -> bool {
    p.len() <= s.len() && s.take(p.len() as int) == p
}

/// `s` with every character mapped through `f`.
pub open spec fn map_chars(s: Seq<char>, f: spec_fn(char) -> char) -> Seq<char> {
    Seq::new(s.len(), |i: int| f(s[i]))
}

/// Index of the first `c` in `s`.
pub open spec fn find_char(s: Seq<char>, c: char) -> Option<int>
    decreases s.len(),
{
    if s.len() == 0 {
        None
    } else {
        match find_char(s.drop_last(), c) {
            Some(k) => Some(k),
            None => if s.last() == c {
                Some(s.len() - 1)
            } else {
                None
            },
        }
    }
}

/// Index of the last `c` in `s`.
pub open spec fn rfind_char(s: Seq<char>, c: char) -> Option<int>
    decreases s.len(),
{
    if s.len() == 0 {
        None
    } else if s.last() == c {
        Some(s.len() - 1)
    } else {
        rfind_char(s.drop_last(), c)
    }
}

/// `str::split(sep)`: the pieces between occurrences of `sep`
/// (always at least one piece).
pub open spec fn split_on(s: Seq<char>, sep: char) -> Seq<Seq<char>>
    decreases s.len(),
{
    if s.len() == 0 {
        seq![Seq::<char>::empty()]
    } else {
        let rest = split_on(s.drop_last(), sep);
        if s.last() == sep {
            rest.push(Seq::<char>::empty())
        } else {
            rest.update(rest.len() - 1, rest.last().push(s.last()))
        }
    }
}

/// `str::split_once(sep)` / `splitn(2, sep)` with two pieces.
pub open spec fn split_once(s: Seq<char>, sep: char) -> Option<(Seq<char>, Seq<char>)> {
    match find_char(s, sep) {
        Some(k) => Some((s.take(k), s.skip(k + 1))),
        None => None,
    }
}

/// `s` without one trailing `c`, if it ends with one.
pub open spec fn strip_last(s: Seq<char>, c: char) -> Seq<char> {
    if s.len() > 0 && s.last() == c {
        s.drop_last()
    } else {
        s
    }
}

/// `str::lines`: pieces ended by `'\n'`, each without its line ending
/// (`"\n"` or `"\r\n"`); a last piece with no `'\n'` after it is kept as is,
/// an empty one is dropped.
pub open spec fn lines_of(s: Seq<char>) -> Seq<Seq<char>> {
    let pieces = split_on(s, '\n');
    let ended = pieces.drop_last().map_values(|p: Seq<char>| strip_last(p, '\r'));
    if pieces.last().len() == 0 {
        ended
    } else {
        ended.push(pieces.last())
    }
}

/// Number of leading characters of `s` that are white space.
pub open spec fn leading_ws(s: Seq<char>) -> nat
    decreases s.len(),
{
    if s.len() == 0 {
        0
    } else if is_white_space(s[0]) {
        1 + leading_ws(s.drop_first())
    } else {
        0
    }
}

/// Number of trailing characters of `s` that are white space.
pub open spec fn trailing_ws(s: Seq<char>) -> nat
    decreases s.len(),
{
    if s.len() == 0 {
        0
    } else if is_white_space(s.last()) {
        1 + trailing_ws(s.drop_last())
    } else {
        0
    }
}

/// `str::trim`: `s` without leading and trailing white space.
pub open spec fn trimmed(s: Seq<char>) -> Seq<char> {
    let front = s.skip(leading_ws(s) as int);
    front.take(front.len() - trailing_ws(front))
}

// ---------------------------------------------------------------------------
// Lemmas
// ---------------------------------------------------------------------------

proof fn lemma_find_extends(s: Seq<char>, t: Seq<char>, c: char)
    requires
        find_char(s, c) is Some,
    ensures
        find_char(s + t, c) == find_char(s, c),
    decreases t.len(),
{
    if t.len() > 0 {
        lemma_find_extends(s, t.drop_last(), c);
        assert((s + t).drop_last() =~= s + t.drop_last());
    } else {
        assert(s + t =~= s);
    }
}

pub proof fn lemma_find_some_is_first(s: Seq<char>, c: char)
    ensures
        match find_char(s, c) {
            Some(k) => 0 <= k < s.len() && s[k] == c && forall|j: int| 0 <= j < k ==> s[j] != c,
            None => forall|j: int| 0 <= j < s.len() ==> s[j] != c,
        },
    decreases s.len(),
{
    if s.len() > 0 {
        lemma_find_some_is_first(s.drop_last(), c);
        assert forall|j: int| 0 <= j < s.len() - 1 implies s.drop_last()[j] == s[j] by {}
    }
}

/// The last `c` found lies within the text and is a `c`.
pub proof fn lemma_rfind_some_is_last(s: Seq<char>, c: char)
    ensures
        match rfind_char(s, c) {
            Some(k) => 0 <= k < s.len() && s[k] == c && forall|j: int| k < j < s.len() ==> s[j] != c,
            None => forall|j: int| 0 <= j < s.len() ==> s[j] != c,
        },
    decreases s.len(),
{
    if s.len() > 0 {
        lemma_rfind_some_is_last(s.drop_last(), c);
        assert forall|j: int| 0 <= j < s.len() - 1 implies s.drop_last()[j] == s[j] by {}
    }
}

proof fn lemma_leading_ws_bound(s: Seq<char>)
    ensures
        leading_ws(s) <= s.len(),
    decreases s.len(),
{
    if s.len() > 0 && is_white_space(s[0]) {
        lemma_leading_ws_bound(s.drop_first());
    }
}

proof fn lemma_trailing_ws_bound(s: Seq<char>)
    ensures
        trailing_ws(s) <= s.len(),
    decreases s.len(),
{
    if s.len() > 0 && is_white_space(s.last()) {
        lemma_trailing_ws_bound(s.drop_last());
    }
}

// ---------------------------------------------------------------------------
// Executable helpers
// ---------------------------------------------------------------------------

/// The characters of `s`, in order.
pub fn chars_of(s: &str) -> (v: Vec<char>)
    ensures
        v@ == s@,
{
    let mut v: Vec<char> = Vec::new();
    for c in it: s.chars()
        invariant
            v@ == it.seq().take(it.index() as int),
            it.seq() == s@,
    {
        v.push(c);
    }
    v
}

/// A `String` holding the characters `v[from..to]`.
pub fn string_of_range(v: &Vec<char>, from: usize, to: usize) -> (s: String)
    requires
        from <= to <= v.len(),
    ensures
        s@ == v@.subrange(from as int, to as int),
{
    let mut s = String::new();
    let mut i: usize = from;
    while i < to
        invariant
            from <= i <= to <= v.len(),
            s@ == v@.subrange(from as int, i as int),
        decreases to - i,
    {
        string_push(&mut s, v[i]);
        i += 1;
        assert(s@ =~= v@.subrange(from as int, i as int));
    }
    s
}

/// A `String` holding the characters of `v`.
pub fn string_of(v: &Vec<char>) -> (s: String)
    ensures
        s@ == v@,
{
    let s = string_of_range(v, 0, v.len());
    assert(v@.subrange(0, v@.len() as int) =~= v@);
    s
}

/// Appends `t` to `s`.
pub fn push_str(s: &mut String, t: &str)
    ensures
        final(s)@ == old(s)@ + t@,
{
    s.append(t);
}

/// Appends the decimal rendering of `n` to `s`.
pub fn push_decimal(s: &mut String, n: u64)
    ensures
        final(s)@ == old(s)@ + decimal(n as nat),
    decreases n,
{
    if n >= 10 {
        push_decimal(s, n / 10);
    }
    let d: u8 = (n % 10) as u8;
    let c: char = (48u8 + d) as char;
    proof {
        assert(c == digit_char((n % 10) as nat));
    }
    string_push(s, c);
    assert(s@ =~= old(s)@ + decimal(n as nat));
}

/// `format!("{}:{:02}", secs / 60, secs % 60)`: minutes and zero-padded seconds.
pub fn clock_string(secs: u64) -> (s: String)
    ensures
        s@ == clock_text(secs as nat),
{
    let mut s = String::new();
    push_decimal(&mut s, secs / 60);
    string_push(&mut s, ':');
    let rem: u64 = secs % 60;
    if rem < 10 {
        string_push(&mut s, '0');
    }
    push_decimal(&mut s, rem);
    assert(s@ =~= clock_text(secs as nat));
    s
}

/// Whether `a` and `b` hold the same characters.
pub fn chars_equal(a: &Vec<char>, b: &Vec<char>) -> (r: bool)
    ensures
        r == (a@ == b@),
{
    if a.len() != b.len() {
        return false;
    }
    let mut i: usize = 0;
    while i < a.len()
        invariant
            a.len() == b.len(),
            i <= a.len(),
            forall|j: int| 0 <= j < i ==> a@[j] == b@[j],
        decreases a.len() - i,
    {
        if a[i] != b[i] {
            return false;
        }
        i += 1;
    }
    assert(a@ =~= b@);
    true
}

/// Whether `a` and `b` are the same text.
pub fn str_equal(a: &str, b: &str) -> (r: bool)
    ensures
        r == (a@ == b@),
{
    let va = chars_of(a);
    let vb = chars_of(b);
    chars_equal(&va, &vb)
}

/// `s.starts_with(p)`.
pub fn starts_with(s: &str, p: &str) -> (r: bool)
    ensures
        r == has_prefix(s@, p@),
{
    let vs = chars_of(s);
    let vp = chars_of(p);
    if vp.len() > vs.len() {
        return false;
    }
    let mut i: usize = 0;
    while i < vp.len()
        invariant
            vp.len() <= vs.len(),
            vs@ == s@,
            vp@ == p@,
            i <= vp.len(),
            forall|j: int| 0 <= j < i ==> vs@[j] == vp@[j],
        decreases vp.len() - i,
    {
        if vs[i] != vp[i] {
            assert(vs@.take(vp@.len() as int)[i as int] != vp@[i as int]);
            return false;
        }
        i += 1;
    }
    assert(vs@.take(vp@.len() as int) =~= vp@);
    true
}

/// `s.strip_prefix(p).unwrap_or(s)`.
pub fn strip_prefix_or_keep(s: &str, p: &str) -> (r: String)
    ensures
        r@ == (if has_prefix(s@, p@) {
            s@.skip(p@.len() as int)
        } else {
            s@
        }),
{
    let vs = chars_of(s);
    if starts_with(s, p) {
        let n: usize = chars_of(p).len();
        let r = string_of_range(&vs, n, vs.len());
        assert(vs@.subrange(n as int, vs@.len() as int) =~= s@.skip(n as int));
        r
    } else {
        s.to_owned()
    }
}

/// Index of the first `c` in `v`.
pub fn find_in(v: &Vec<char>, c: char) -> (r: Option<usize>)
    ensures
        match r {
            Some(k) => find_char(v@, c) == Some(k as int),
            None => find_char(v@, c) is None,
        },
{
    let mut i: usize = 0;
    while i < v.len()
        invariant
            i <= v.len(),
            find_char(v@.take(i as int), c) is None,
        decreases v.len() - i,
    {
        assert(v@.take(i as int + 1).drop_last() =~= v@.take(i as int));
        if v[i] == c {
            proof {
                lemma_find_extends(v@.take(i as int + 1), v@.skip(i as int + 1), c);
                assert(v@.take(i as int + 1) + v@.skip(i as int + 1) =~= v@);
            }
            return Some(i);
        }
        i += 1;
    }
    assert(v@.take(v.len() as int) =~= v@);
    None
}

/// Index of the last `c` in `v`.
pub fn rfind_in(v: &Vec<char>, c: char) -> (r: Option<usize>)
    ensures
        match r {
            Some(k) => rfind_char(v@, c) == Some(k as int),
            None => rfind_char(v@, c) is None,
        },
{
    let mut last: Option<usize> = None;
    let mut i: usize = 0;
    while i < v.len()
        invariant
            i <= v.len(),
            match last {
                Some(k) => rfind_char(v@.take(i as int), c) == Some(k as int),
                None => rfind_char(v@.take(i as int), c) is None,
            },
        decreases v.len() - i,
    {
        assert(v@.take(i as int + 1).drop_last() =~= v@.take(i as int));
        if v[i] == c {
            last = Some(i);
        }
        i += 1;
    }
    assert(v@.take(v.len() as int) =~= v@);
    last
}

/// `str::split(sep)` on characters.
pub fn split_chars(v: &Vec<char>, sep: char) -> (parts: Vec<Vec<char>>)
    ensures
        parts@.len() == split_on(v@, sep).len(),
        forall|i: int| 0 <= i < parts@.len() ==> #[trigger] parts@[i]@ == split_on(v@, sep)[i],
{
    let mut parts: Vec<Vec<char>> = Vec::new();
    let mut cur: Vec<char> = Vec::new();
    let mut i: usize = 0;
    while i < v.len()
        invariant
            i <= v.len(),
            parts@.len() + 1 == split_on(v@.take(i as int), sep).len(),
            forall|j: int| 0 <= j < parts@.len() ==> #[trigger] parts@[j]@ == split_on(v@.take(i as int), sep)[j],
            cur@ == split_on(v@.take(i as int), sep).last(),
        decreases v.len() - i,
    {
        assert(v@.take(i as int + 1).drop_last() =~= v@.take(i as int));
        if v[i] == sep {
            let done = cur;
            parts.push(done);
            cur = Vec::new();
        } else {
            cur.push(v[i]);
        }
        i += 1;
    }
    assert(v@.take(v.len() as int) =~= v@);
    parts.push(cur);
    parts
}

/// The characters `v[from..to]`.
pub fn chars_range(v: &Vec<char>, from: usize, to: usize) -> (r: Vec<char>)
    requires
        from <= to <= v.len(),
    ensures
        r@ == v@.subrange(from as int, to as int),
{
    let mut r: Vec<char> = Vec::new();
    let mut i: usize = from;
    while i < to
        invariant
            from <= i <= to <= v.len(),
            r@ == v@.subrange(from as int, i as int),
        decreases to - i,
    {
        r.push(v[i]);
        i += 1;
        assert(r@ =~= v@.subrange(from as int, i as int));
    }
    r
}

/// `split_once(sep)`: the text before and after the first `sep`.
pub fn split_once_chars(v: &Vec<char>, sep: char) -> (r: Option<(Vec<char>, Vec<char>)>)
    ensures
        match r {
            Some((a, b)) => split_once(v@, sep) == Some((a@, b@)),
            None => split_once(v@, sep) is None,
        },
{
    proof {
        lemma_find_some_is_first(v@, sep);
    }
    match find_in(v, sep) {
        Some(k) => {
            assert(k < v.len());
            let a = chars_range(v, 0, k);
            let b = chars_range(v, k + 1, v.len());
            assert(a@ =~= v@.take(k as int));
            assert(b@ =~= v@.skip(k as int + 1));
            Some((a, b))
        },
        None => None,
    }
}

/// `str::lines` on characters.
pub fn lines_chars(v: &Vec<char>) -> (lines: Vec<Vec<char>>)
    ensures
        lines@.len() == lines_of(v@).len(),
        forall|i: int| 0 <= i < lines@.len() ==> #[trigger] lines@[i]@ == lines_of(v@)[i],
{
    let pieces = split_chars(v, '\n');
    let ghost ps = split_on(v@, '\n');
    let ghost ended = ps.drop_last().map_values(|p: Seq<char>| strip_last(p, '\r'));
    let mut lines: Vec<Vec<char>> = Vec::new();
    let n = pieces.len();
    assert(n > 0) by {
        lemma_split_nonempty(v@, '\n');
    }
    let mut i: usize = 0;
    while i + 1 < n
        invariant
            n == pieces@.len(),
            n == ps.len(),
            n > 0,
            i + 1 <= n,
            ended == ps.drop_last().map_values(|p: Seq<char>| strip_last(p, '\r')),
            forall|j: int| 0 <= j < n ==> #[trigger] pieces@[j]@ == ps[j],
            lines@.len() == i,
            forall|j: int| 0 <= j < i ==> #[trigger] lines@[j]@ == ended[j],
        decreases n - i,
    {
        let p = &pieces[i];
        let l = if p.len() > 0 && p[p.len() - 1] == '\r' {
            chars_range(p, 0, p.len() - 1)
        } else {
            chars_range(p, 0, p.len())
        };
        assert(l@ == strip_last(ps[i as int], '\r')) by {
            assert(p@.subrange(0, p@.len() as int) =~= p@);
            assert(p@.subrange(0, p@.len() - 1) =~= p@.drop_last());
        }
        lines.push(l);
        i += 1;
    }
    let last = &pieces[n - 1];
    if last.len() > 0 {
        let l = chars_range(last, 0, last.len());
        assert(l@ =~= ps.last());
        lines.push(l);
    }
    lines
}

pub(crate) proof fn lemma_split_nonempty(s: Seq<char>, sep: char)
    ensures
        split_on(s, sep).len() > 0,
    decreases s.len(),
{
    if s.len() > 0 {
        lemma_split_nonempty(s.drop_last(), sep);
    }
}

/// `str::trim` on characters.
pub fn trim_chars(v: &Vec<char>) -> (r: Vec<char>)
    ensures
        r@ == trimmed(v@),
{
    let mut start: usize = 0;
    assert(v@.skip(0) =~= v@);
    while start < v.len() && char_is_whitespace(v[start])
        invariant
            start <= v.len(),
            leading_ws(v@) == start + leading_ws(v@.skip(start as int)),
        decreases v.len() - start,
    {
        assert(v@.skip(start as int).drop_first() =~= v@.skip(start as int + 1));
        start += 1;
    }
    assert(leading_ws(v@.skip(start as int)) == 0) by {
        if start < v.len() {
            assert(v@.skip(start as int)[0] == v@[start as int]);
        }
    }
    let ghost front = v@.skip(start as int);
    let mut end: usize = v.len();
    assert(front.take(end - start) =~= front);
    while end > start && char_is_whitespace(v[end - 1])
        invariant
            start <= end <= v.len(),
            front == v@.skip(start as int),
            trailing_ws(front) == (v.len() - end) + trailing_ws(front.take(end - start)),
        decreases end - start,
    {
        assert(front.take(end - start).drop_last() =~= front.take(end - start - 1));
        assert(front.take(end - start).last() == v@[end - 1]);
        end -= 1;
    }
    assert(trailing_ws(front.take(end - start)) == 0) by {
        if end > start {
            assert(front.take(end - start).last() == v@[end - 1]);
        }
    }
    let mut r: Vec<char> = Vec::new();
    let mut i: usize = start;
    while i < end
        invariant
            start <= i <= end <= v.len(),
            r@ == v@.subrange(start as int, i as int),
        decreases end - i,
    {
        r.push(v[i]);
        i += 1;
        assert(r@ =~= v@.subrange(start as int, i as int));
    }
    assert(r@ =~= trimmed(v@));
    r
}

// ---------------------------------------------------------------------------
// On-screen keyboard editing
// ---------------------------------------------------------------------------

/// The text without its last character; an empty text stays empty.
pub fn backspace(s: &str) -> (r: String)
    ensures
        r@ == (if s@.len() > 0 {
            s@.drop_last()
        } else {
            s@
        }),
{
    let cs = chars_of(s);
    if cs.len() > 0 {
        let r = string_of_range(&cs, 0, cs.len() - 1);
        assert(cs@.subrange(0, cs@.len() - 1) =~= cs@.drop_last());
        r
    } else {
        s.to_owned()
    }
}

/// The number of characters, as the keyboard's 32-bit integer (wrapping as
/// `as i32` does).
pub fn char_count(s: &str) -> (n: i32)
    ensures
        n == s@.len() as i32,
{
    let cs = chars_of(s);
    cs.len() as i32
}

/// A cursor position within a text of `len` characters: negative positions
/// are 0, positions past the end are the end.
pub open spec fn clamped_cursor(pos: i32, len: nat) -> int {
    if pos < 0 {
        0
    } else if pos > len {
        len as int
    } else {
        pos as int
    }
}

/// The characters before cursor position `pos` (clamped to the text).
pub fn before_cursor(s: &str, pos: i32) -> (r: String)
    ensures
        r@ == s@.take(clamped_cursor(pos, s@.len())),
{
    let cs = chars_of(s);
    let p: usize = if pos < 0 {
        0
    } else if (pos as usize) > cs.len() {
        cs.len()
    } else {
        pos as usize
    };
    let r = string_of_range(&cs, 0, p);
    assert(cs@.subrange(0, p as int) =~= cs@.take(p as int));
    r
}

/// The characters from cursor position `pos` (clamped to the text) on.
pub fn after_cursor(s: &str, pos: i32) -> (r: String)
    ensures
        r@ == s@.skip(clamped_cursor(pos, s@.len())),
{
    let cs = chars_of(s);
    let p: usize = if pos < 0 {
        0
    } else if (pos as usize) > cs.len() {
        cs.len()
    } else {
        pos as usize
    };
    let r = string_of_range(&cs, p, cs.len());
    assert(cs@.subrange(p as int, cs@.len() as int) =~= cs@.skip(p as int));
    r
}

/// Splitting a text at the cursor and joining the two parts gives the text
/// back, wherever the cursor is.
pub proof fn law_cursor_split_rejoins(s: Seq<char>, pos: i32)
    ensures
        s.take(clamped_cursor(pos, s.len())) + s.skip(clamped_cursor(pos, s.len())) == s,
{
    assert(s.take(clamped_cursor(pos, s.len())) + s.skip(clamped_cursor(pos, s.len())) =~= s);
}

} // verus!
