//! First-run Wi-Fi setup: reading the network scan, the setup page's
//! network list, routing its requests, decoding the submitted form and the
//! arguments of the connect command.
use vstd::prelude::*;
use crate::cache::{StringMap, texts};
use crate::text::{
    chars_of, has_prefix, lines_chars, map_chars, lines_of, lossy_text, push_str, split_chars, split_on, split_once,
    split_once_chars, str_equal, string_of, string_push, text_from_bytes, trim_chars, trimmed,
};

verus! {

// ---------------------------------------------------------------------------
// The network scan
// ---------------------------------------------------------------------------

/// The network one scan line names, as (SSID, signal), both trimmed. With
/// `all_fields` the line is cut at every `:` and the first two fields are
/// taken; otherwise it is cut at the first `:` only. A line without `:`
/// names none.
pub open spec fn scan_entry(line: Seq<char>, all_fields: bool) -> Option<(Seq<char>, Seq<char>)> {
    if all_fields {
        let parts = split_on(line, ':');
        if parts.len() >= 2 {
            Some((trimmed(parts[0]), trimmed(parts[1])))
        } else {
            None
        }
    } else {
        match split_once(line, ':') {
            Some((a, b)) => Some((trimmed(a), trimmed(b))),
            None => None,
        }
    }
}

/// The SSIDs of a network list.
pub open spec fn ssids(nets: Seq<(Seq<char>, Seq<char>)>) -> Seq<Seq<char>> {
    nets.map_values(|n: (Seq<char>, Seq<char>)| n.0)
}

/// The networks named by `lines`, in order: entries with an empty SSID and
/// repeats of an SSID already listed are skipped.
pub open spec fn networks_from(lines: Seq<Seq<char>>, all_fields: bool) -> Seq<(Seq<char>, Seq<char>)>
    decreases lines.len(),
{
    if lines.len() == 0 {
        Seq::empty()
    } else {
        let acc = networks_from(lines.drop_last(), all_fields);
        match scan_entry(lines.last(), all_fields) {
            Some((s, g)) => if s.len() > 0 && !ssids(acc).contains(s) {
                acc.push((s, g))
            } else {
                acc
            },
            None => acc,
        }
    }
}

/// A list of text pairs as character sequences.
pub open spec fn pairs_view(v: Seq<(String, String)>) -> Seq<(Seq<char>, Seq<char>)> {
    v.map_values(|p: (String, String)| (p.0@, p.1@))
}

/// Whether `nets` already lists `ssid`.
fn lists_ssid(nets: &Vec<(String, String)>, ssid: &str) -> (r: bool)
    ensures
        r == ssids(pairs_view(nets@)).contains(ssid@),
{
    let mut i: usize = 0;
    while i < nets.len()
        invariant
            i <= nets.len(),
            forall|j: int| 0 <= j < i ==> nets@[j].0@ != ssid@,
        decreases nets.len() - i,
    {
        if str_equal(nets[i].0.as_str(), ssid) {
            assert(ssids(pairs_view(nets@))[i as int] == ssid@);
            return true;
        }
        i += 1;
    }
    assert forall|j: int| 0 <= j < ssids(pairs_view(nets@)).len() implies ssids(pairs_view(nets@))[j] != ssid@ by {
        assert(ssids(pairs_view(nets@))[j] == nets@[j].0@);
    }
    false
}

/// The network a scan line names.
fn entry_of(line: &Vec<char>, all_fields: bool) -> (r: Option<(Vec<char>, Vec<char>)>)
    ensures
        match r {
            Some((s, g)) => scan_entry(line@, all_fields) == Some((s@, g@)),
            None => scan_entry(line@, all_fields) is None,
        },
{
    if all_fields {
        let parts = split_chars(line, ':');
        if parts.len() >= 2 {
            Some((trim_chars(&parts[0]), trim_chars(&parts[1])))
        } else {
            None
        }
    } else {
        match split_once_chars(line, ':') {
            Some((a, b)) => Some((trim_chars(&a), trim_chars(&b))),
            None => None,
        }
    }
}

fn networks_in(output: &[u8], all_fields: bool) -> (nets: Vec<(String, String)>)
    ensures
        pairs_view(nets@) == networks_from(lines_of(lossy_text(output@)), all_fields),
{
    let text = text_from_bytes(output);
    let chars = chars_of(text.as_str());
    let lines = lines_chars(&chars);
    let ghost ls = lines_of(lossy_text(output@));
    let mut nets: Vec<(String, String)> = Vec::new();
    let mut i: usize = 0;
    while i < lines.len()
        invariant
            i <= lines.len(),
            lines@.len() == ls.len(),
            forall|j: int| 0 <= j < ls.len() ==> #[trigger] lines@[j]@ == ls[j],
            pairs_view(nets@) == networks_from(ls.take(i as int), all_fields),
        decreases lines.len() - i,
    {
        assert(ls.take(i as int + 1).drop_last() =~= ls.take(i as int));
        assert(ls.take(i as int + 1).last() == lines@[i as int]@);
        match entry_of(&lines[i], all_fields) {
            Some((s, g)) => {
                let ssid = string_of(&s);
                if s.len() > 0 && !lists_ssid(&nets, ssid.as_str()) {
                    let signal = string_of(&g);
                    nets.push((ssid, signal));
                    assert(pairs_view(nets@) =~= networks_from(ls.take(i as int + 1), all_fields));
                } else {
                    assert(pairs_view(nets@) =~= networks_from(ls.take(i as int + 1), all_fields));
                }
            },
            None => {},
        }
        i += 1;
    }
    assert(ls.take(lines.len() as int) =~= ls);
    nets
}

/// The networks in the output of `nmcli -t -f SSID,SIGNAL device wifi list`
/// (read as `String::from_utf8_lossy` reads it): per line the SSID before
/// the first `:` and the signal after it, trimmed; empty SSIDs and repeats
/// skipped.
pub fn scan_networks(output: &[u8]) -> (nets: Vec<(String, String)>)
    ensures
        pairs_view(nets@) == networks_from(lines_of(lossy_text(output@)), false),
{
    networks_in(output, false)
}

/// The networks in the output of `nmcli -t -f SSID,SIGNAL,SECURITY device
/// wifi list`: per line the first two `:`-separated fields, trimmed; empty
/// SSIDs and repeats skipped.
pub fn scan_networks_all_fields(output: &[u8]) -> (nets: Vec<(String, String)>)
    ensures
        pairs_view(nets@) == networks_from(lines_of(lossy_text(output@)), true),
{
    networks_in(output, true)
}

// ---------------------------------------------------------------------------
// The setup page
// ---------------------------------------------------------------------------

/// How one character is written inside the page: `"`, `<` and `>` as
/// entities, everything else as it is.
pub open spec fn escape_char(c: char) -> Seq<char> {
    if c == '"' {
        "&quot;"@
    } else if c == '<' {
        "&lt;"@
    } else if c == '>' {
        "&gt;"@
    } else {
        seq![c]
    }
}

/// `s` with `"`, `<` and `>` written as entities.
pub open spec fn escaped(s: Seq<char>) -> Seq<char>
    decreases s.len(),
{
    if s.len() == 0 {
        Seq::empty()
    } else {
        escaped(s.drop_last()) + escape_char(s.last())
    }
}

/// `s` with `"`, `<` and `>` written as `&quot;`, `&lt;` and `&gt;`.
pub fn escape_markup(s: &str) -> (r: String)
    ensures
        r@ == escaped(s@),
{
    let cs = chars_of(s);
    let mut r = String::new();
    let mut i: usize = 0;
    while i < cs.len()
        invariant
            i <= cs.len(),
            cs@ == s@,
            r@ == escaped(cs@.take(i as int)),
        decreases cs.len() - i,
    {
        assert(cs@.take(i as int + 1).drop_last() =~= cs@.take(i as int));
        let c = cs[i];
        if c == '"' {
            push_str(&mut r, "&quot;");
        } else if c == '<' {
            push_str(&mut r, "&lt;");
        } else if c == '>' {
            push_str(&mut r, "&gt;");
        } else {
            string_push(&mut r, c);
            assert(r@ =~= escaped(cs@.take(i as int)) + seq![c]);
        }
        i += 1;
    }
    assert(cs@.take(cs.len() as int) =~= cs@);
    r
}

/// One entry of the network list: `<option value="SSID">SSID (SIGNAL` then
/// `note`, `)</option>` and a line feed, the SSID escaped.
pub open spec fn option_line(ssid: Seq<char>, signal: Seq<char>, note: Seq<char>) -> Seq<char> {
    "<option value=\""@ + escaped(ssid) + "\">"@ + escaped(ssid) + " ("@ + signal + note + ")</option>\n"@
}

/// The entries of all networks, in order.
pub open spec fn option_lines(nets: Seq<(Seq<char>, Seq<char>)>, note: Seq<char>) -> Seq<char>
    decreases nets.len(),
{
    if nets.len() == 0 {
        Seq::empty()
    } else {
        option_lines(nets.drop_last(), note) + option_line(nets.last().0, nets.last().1, note)
    }
}

/// The `<option>` list of the setup page; `signal_note` follows the signal
/// value (`%` or `% signal`).
pub fn network_options(nets: &Vec<(String, String)>, signal_note: &str) -> (html: String)
    ensures
        html@ == option_lines(pairs_view(nets@), signal_note@),
{
    let mut html = String::new();
    let mut i: usize = 0;
    while i < nets.len()
        invariant
            i <= nets.len(),
            html@ == option_lines(pairs_view(nets@).take(i as int), signal_note@),
        decreases nets.len() - i,
    {
        assert(pairs_view(nets@).take(i as int + 1).drop_last() =~= pairs_view(nets@).take(i as int));
        let esc = escape_markup(nets[i].0.as_str());
        push_str(&mut html, "<option value=\"");
        push_str(&mut html, esc.as_str());
        push_str(&mut html, "\">");
        push_str(&mut html, esc.as_str());
        push_str(&mut html, " (");
        push_str(&mut html, nets[i].1.as_str());
        push_str(&mut html, signal_note);
        push_str(&mut html, ")</option>\n");
        assert(html@ =~= option_lines(pairs_view(nets@).take(i as int), signal_note@) + option_line(
            nets@[i as int].0@,
            nets@[i as int].1@,
            signal_note@,
        ));
        i += 1;
    }
    assert(pairs_view(nets@).take(nets.len() as int) =~= pairs_view(nets@));
    html
}

/// What the setup server answers.
#[derive(Clone, Copy, Debug, PartialEq, Eq, Structural)]
pub enum SetupRoute {
    /// The page with the network list.
    Form,
    /// A submitted network choice.
    Connect,
    /// Anything else: 404.
    NotFound,
}

/// The answer to a request for `url`: the page for `/wifi` and `/`, the
/// connect step for a POST to `/connect`, 404 otherwise.
pub fn route_request(is_post: bool, url: &str) -> (r: SetupRoute)
    ensures
        r == (if url@ == "/wifi"@ || url@ == "/"@ {
            SetupRoute::Form
        } else if is_post && url@ == "/connect"@ {
            SetupRoute::Connect
        } else {
            SetupRoute::NotFound
        }),
{
    if str_equal(url, "/wifi") || str_equal(url, "/") {
        SetupRoute::Form
    } else if is_post && str_equal(url, "/connect") {
        SetupRoute::Connect
    } else {
        SetupRoute::NotFound
    }
}

// ---------------------------------------------------------------------------
// The submitted form
// ---------------------------------------------------------------------------

/// What `urlencoding::decode` makes of a text: the percent-decoded text, or
/// `None` when the decoded bytes are not UTF-8.
pub uninterp spec fn url_decoded(s: Seq<char>) -> Option<Seq<char>>;

/// The error `urlencoding::decode` reports for decoded bytes that are not
/// UTF-8.
#[verifier::external_type_specification]
#[verifier::external_body]
pub struct ExFromUtf8Error(std::string::FromUtf8Error);

/// `urlencoding::decode`: percent-decodes `data`, failing when the decoded
/// bytes are not UTF-8. Stated here: the result is a function of `data`,
/// and a text without `%` comes back unchanged (the crate's source returns
/// it as it is). The decoding of `%` sequences is not stated.
#[verifier::external_body]
fn url_decode(data: &str) -> (r: Result<String, std::string::FromUtf8Error>)
    ensures
        match r {
            Ok(s) => url_decoded(data@) == Some(s@) && (!data@.contains('%') ==> s@ == data@),
            Err(_) => url_decoded(data@) is None && data@.contains('%'),
        },
{
    urlencoding::decode(data).map(|c| c.into_owned())
}

/// A form text decoded, or as it is when it does not decode.
pub open spec fn decoded_or_raw(s: Seq<char>) -> Seq<char> {
    match url_decoded(s) {
        Some(d) => d,
        None => s,
    }
}

fn decode_or_keep(s: &str) -> (r: String)
    ensures
        r@ == decoded_or_raw(s@),
        !s@.contains('%') ==> r@ == s@,
{
    match url_decode(s) {
        Ok(d) => d,
        Err(_) => s.to_owned(),
    }
}

/// A form text with each `+` read as a space, as a URL-encoded form writes
/// spaces.
pub open spec fn plus_as_space(s: Seq<char>) -> Seq<char> {
    map_chars(s, |c: char| if c == '+' { ' ' } else { c })
}

/// A form text with each `+` read as a space.
fn plus_to_space(v: &Vec<char>) -> (r: String)
    ensures
        r@ == plus_as_space(v@),
{
    let mut r = String::new();
    let mut i: usize = 0;
    while i < v.len()
        invariant
            i <= v.len(),
            r@ == plus_as_space(v@.take(i as int)),
        decreases v.len() - i,
    {
        let c = v[i];
        string_push(&mut r, if c == '+' { ' ' } else { c });
        i += 1;
        assert(r@ =~= plus_as_space(v@.take(i as int)));
    }
    assert(v@.take(v.len() as int) =~= v@);
    r
}

/// The fields of a form body cut at `&`: each piece with a `=` gives the
/// text before it as key and the rest as value, each with `+` read as a
/// space and then percent-decoded; a later piece replaces an earlier one
/// with the same key.
pub open spec fn form_fields(pieces: Seq<Seq<char>>) -> Map<Seq<char>, Seq<char>>
    decreases pieces.len(),
{
    if pieces.len() == 0 {
        Map::empty()
    } else {
        let m = form_fields(pieces.drop_last());
        match split_once(pieces.last(), '=') {
            Some((k, v)) => m.insert(decoded_or_raw(plus_as_space(k)), decoded_or_raw(plus_as_space(v))),
            None => m,
        }
    }
}

/// The text-valued view of a map of texts.
pub open spec fn text_map(m: Map<Seq<char>, String>) -> Map<Seq<char>, Seq<char>> {
    m.map_values(|s: String| s@)
}

/// The fields of a form body without `%`: as [`form_fields`], with `+`
/// read as a space and nothing else changed.
pub open spec fn plain_form_fields(pieces: Seq<Seq<char>>) -> Map<Seq<char>, Seq<char>>
    decreases pieces.len(),
{
    if pieces.len() == 0 {
        Map::empty()
    } else {
        let m = plain_form_fields(pieces.drop_last());
        match split_once(pieces.last(), '=') {
            Some((k, v)) => m.insert(plus_as_space(k), plus_as_space(v)),
            None => m,
        }
    }
}

proof fn lemma_split_avoids(s: Seq<char>, sep: char, c: char)
    requires
        !s.contains(c),
    ensures
        forall|j: int| 0 <= j < split_on(s, sep).len() ==> !(#[trigger] split_on(s, sep)[j]).contains(c),
    decreases s.len(),
{
    if s.len() > 0 {
        let d = s.drop_last();
        assert(!d.contains(c)) by {
            if d.contains(c) {
                let k = choose|k: int| 0 <= k < d.len() && d[k] == c;
                assert(s[k] == c);
            }
        }
        assert(s.last() != c) by {
            assert(s[s.len() - 1] == s.last());
        }
        lemma_split_avoids(d, sep, c);
        crate::text::lemma_split_nonempty(d, sep);
        let rest = split_on(d, sep);
        let all = split_on(s, sep);
        if s.last() == sep {
            assert forall|j: int| 0 <= j < all.len() implies !(#[trigger] all[j]).contains(c) by {
                if j < rest.len() {
                    assert(all[j] == rest[j]);
                } else {
                    assert(all[j] =~= Seq::<char>::empty());
                }
            }
        } else {
            let grown = rest.last().push(s.last());
            assert(!rest[rest.len() - 1].contains(c));
            assert(!grown.contains(c)) by {
                if grown.contains(c) {
                    let k = choose|k: int| 0 <= k < grown.len() && grown[k] == c;
                    if k < rest.last().len() {
                        assert(rest.last()[k] == c);
                    }
                }
            }
            assert forall|j: int| 0 <= j < all.len() implies !(#[trigger] all[j]).contains(c) by {
                if j < rest.len() - 1 {
                    assert(all[j] == rest[j]);
                } else {
                    assert(all[j] == grown);
                }
            }
        }
    }
}

proof fn lemma_plain_part(x: Seq<char>, a: int, b: int)
    requires
        !x.contains('%'),
        0 <= a <= b <= x.len(),
    ensures
        !plus_as_space(x.subrange(a, b)).contains('%'),
{
    let y = plus_as_space(x.subrange(a, b));
    if y.contains('%') {
        let k = choose|k: int| 0 <= k < y.len() && y[k] == '%';
        assert(x[a + k] == '%');
    }
}

/// Decodes an `application/x-www-form-urlencoded` body; a body without `%`
/// gives its fields with `+` read as a space and nothing decoded.
pub fn parse_form(body: &str) -> (form: StringMap<String>)
    ensures
        form.wf(),
        text_map(form@) == form_fields(split_on(body@, '&')),
        !body@.contains('%') ==> text_map(form@) == plain_form_fields(split_on(body@, '&')),
{
    let chars = chars_of(body);
    let pieces = split_chars(&chars, '&');
    let ghost ps = split_on(body@, '&');
    let mut form: StringMap<String> = StringMap::new();
    let mut i: usize = 0;
    let ghost plain = !body@.contains('%');
    proof {
        if plain {
            lemma_split_avoids(body@, '&', '%');
        }
    }
    assert(text_map(form@) =~= form_fields(ps.take(0)));
    assert(text_map(form@) =~= plain_form_fields(ps.take(0)));
    while i < pieces.len()
        invariant
            i <= pieces.len(),
            pieces@.len() == ps.len(),
            ps == split_on(body@, '&'),
            plain == !body@.contains('%'),
            plain ==> forall|j: int| 0 <= j < ps.len() ==> !(#[trigger] ps[j]).contains('%'),
            forall|j: int| 0 <= j < ps.len() ==> #[trigger] pieces@[j]@ == ps[j],
            form.wf(),
            text_map(form@) == form_fields(ps.take(i as int)),
            plain ==> text_map(form@) == plain_form_fields(ps.take(i as int)),
        decreases pieces.len() - i,
    {
        assert(ps.take(i as int + 1).drop_last() =~= ps.take(i as int));
        assert(ps.take(i as int + 1).last() == pieces@[i as int]@);
        match split_once_chars(&pieces[i], '=') {
            Some((k, v)) => {
                proof {
                    if plain {
                        let pc = ps[i as int];
                        crate::text::lemma_find_some_is_first(pc, '=');
                        let f = crate::text::find_char(pc, '=')->0;
                        assert(k@ =~= pc.subrange(0, f));
                        assert(v@ =~= pc.subrange(f + 1, pc.len() as int));
                        lemma_plain_part(pc, 0, f);
                        lemma_plain_part(pc, f + 1, pc.len() as int);
                    }
                }
                let key = decode_or_keep(plus_to_space(&k).as_str());
                let value = decode_or_keep(plus_to_space(&v).as_str());
                let ghost before = form@;
                form.insert(key, value);
                assert(text_map(form@) =~= text_map(before).insert(key@, value@));
            },
            None => {},
        }
        i += 1;
    }
    assert(ps.take(pieces.len() as int) =~= ps);
    form
}

/// The network and password of a submitted form; a missing field reads as
/// empty.
pub fn wifi_credentials(form: &StringMap<String>) -> (r: (String, String))
    requires
        form.wf(),
    ensures
        r.0@ == (if form@.contains_key("ssid"@) {
            form@["ssid"@]@
        } else {
            Seq::<char>::empty()
        }),
        r.1@ == (if form@.contains_key("password"@) {
            form@["password"@]@
        } else {
            Seq::<char>::empty()
        }),
{
    let ssid = match form.get("ssid") {
        Some(s) => s.clone(),
        None => String::new(),
    };
    let password = match form.get("password") {
        Some(p) => p.clone(),
        None => String::new(),
    };
    (ssid, password)
}

/// The `nmcli` arguments that join network `ssid`: `device wifi connect
/// SSID`, then `password PASSWORD` unless the password is empty.
pub fn wifi_connect_args(ssid: &str, password: &str) -> (args: Vec<String>)
    ensures
        texts(args@) == seq!["device"@, "wifi"@, "connect"@, ssid@] + (if password@.len() > 0 {
            seq!["password"@, password@]
        } else {
            Seq::<Seq<char>>::empty()
        }),
{
    let mut args: Vec<String> = Vec::new();
    args.push("device".to_owned());
    args.push("wifi".to_owned());
    args.push("connect".to_owned());
    args.push(ssid.to_owned());
    if !password.is_empty() {
        args.push("password".to_owned());
        args.push(password.to_owned());
    }
    assert(texts(args@) =~= seq!["device"@, "wifi"@, "connect"@, ssid@] + (if password@.len() > 0 {
        seq!["password"@, password@]
    } else {
        Seq::<Seq<char>>::empty()
    }));
    args
}


// ---------------------------------------------------------------------------
// Settings: device name and Bluetooth
// ---------------------------------------------------------------------------

/// A line of `/etc/hosts` after renaming the device to `name`: the line of
/// `127.0.1.1` becomes `127.0.1.1<TAB>NAME`; other lines stay.
pub open spec fn host_line(line: Seq<char>, name: Seq<char>) -> Seq<char> {
    if has_prefix(line, "127.0.1.1"@) {
        "127.0.1.1\t"@ + name
    } else {
        line
    }
}

/// Lines joined with line feeds between them.
pub open spec fn joined(lines: Seq<Seq<char>>) -> Seq<char>
    decreases lines.len(),
{
    if lines.len() == 0 {
        Seq::empty()
    } else if lines.len() == 1 {
        lines[0]
    } else {
        joined(lines.drop_last()).push('\n') + lines.last()
    }
}

/// The hosts file after renaming the device to `name`: each line (as
/// `str::lines` cuts them) rewritten by [`host_line`], joined with line
/// feeds.
pub fn hosts_with_name(hosts: &str, name: &str) -> (updated: String)
    ensures
        updated@ == joined(lines_of(hosts@).map_values(|l: Seq<char>| host_line(l, name@))),
{
    proof {
        reveal_strlit("127.0.1.1");
        reveal_strlit("127.0.1.1\t");
    }
    let cs = chars_of(hosts);
    let lines = lines_chars(&cs);
    let ghost ls = lines_of(hosts@).map_values(|l: Seq<char>| host_line(l, name@));
    let prefix = chars_of("127.0.1.1");
    let mut out = String::new();
    let mut i: usize = 0;
    while i < lines.len()
        invariant
            i <= lines.len(),
            prefix@ == "127.0.1.1"@,
            prefix@.len() == 9,
            ls.len() == lines@.len(),
            forall|j: int| 0 <= j < ls.len() ==> #[trigger] ls[j] == host_line(lines@[j]@, name@),
            out@ == joined(ls.take(i as int)),
        decreases lines.len() - i,
    {
        assert(ls.take(i as int + 1).drop_last() =~= ls.take(i as int));
        if i > 0 {
            string_push(&mut out, '\n');
        }
        let l = &lines[i];
        let starts = if l.len() >= 9 {
            let head = crate::text::chars_range(l, 0, 9);
            assert(head@ =~= l@.take(9));
            crate::text::chars_equal(&head, &prefix)
        } else {
            false
        };
        assert(starts == has_prefix(l@, "127.0.1.1"@));
        if starts {
            push_str(&mut out, "127.0.1.1\t");
            push_str(&mut out, name);
        } else {
            let t = string_of(l);
            push_str(&mut out, t.as_str());
        }
        assert(ls.take(i as int + 1).last() == ls[i as int]);
        assert(out@ =~= joined(ls.take(i as int + 1)));
        i += 1;
    }
    assert(ls.take(lines.len() as int) =~= ls);
    out
}

/// The Bluetooth device a `bluetoothctl devices` line names, as (address,
/// name): the line must read `Device ADDRESS NAME` (cut at the first two
/// spaces).
pub open spec fn device_entry(line: Seq<char>) -> Option<(Seq<char>, Seq<char>)> {
    match split_once(line, ' ') {
        Some((tag, rest)) => if tag == "Device"@ {
            split_once(rest, ' ')
        } else {
            None
        },
        None => None,
    }
}

/// The devices named by `lines`, in order.
pub open spec fn devices_from(lines: Seq<Seq<char>>) -> Seq<(Seq<char>, Seq<char>)>
    decreases lines.len(),
{
    if lines.len() == 0 {
        Seq::empty()
    } else {
        let acc = devices_from(lines.drop_last());
        match device_entry(lines.last()) {
            Some(d) => acc.push(d),
            None => acc,
        }
    }
}

/// The devices in the output of `bluetoothctl devices` (read as
/// `String::from_utf8_lossy` reads it), as (address, name).
pub fn bluetooth_devices(output: &[u8]) -> (devices: Vec<(String, String)>)
    ensures
        pairs_view(devices@) == devices_from(lines_of(lossy_text(output@))),
{
    proof {
        reveal_strlit("Device");
    }
    let text = text_from_bytes(output);
    let chars = chars_of(text.as_str());
    let lines = lines_chars(&chars);
    let ghost ls = lines_of(lossy_text(output@));
    let tag_word = chars_of("Device");
    let mut devices: Vec<(String, String)> = Vec::new();
    let mut i: usize = 0;
    while i < lines.len()
        invariant
            i <= lines.len(),
            tag_word@ == "Device"@,
            lines@.len() == ls.len(),
            forall|j: int| 0 <= j < ls.len() ==> #[trigger] lines@[j]@ == ls[j],
            pairs_view(devices@) == devices_from(ls.take(i as int)),
        decreases lines.len() - i,
    {
        assert(ls.take(i as int + 1).drop_last() =~= ls.take(i as int));
        assert(ls.take(i as int + 1).last() == lines@[i as int]@);
        match split_once_chars(&lines[i], ' ') {
            Some((tag, rest)) => {
                if crate::text::chars_equal(&tag, &tag_word) {
                    match split_once_chars(&rest, ' ') {
                        Some((mac, name)) => {
                            devices.push((string_of(&mac), string_of(&name)));
                            assert(pairs_view(devices@) =~= devices_from(ls.take(i as int + 1)));
                        },
                        None => {},
                    }
                }
            },
            None => {},
        }
        i += 1;
    }
    assert(ls.take(lines.len() as int) =~= ls);
    devices
}

/// No SSID is listed twice and none is empty, whatever the scan printed.
pub proof fn law_scan_lists_each_network_once(lines: Seq<Seq<char>>, all_fields: bool)
    ensures
        ssids(networks_from(lines, all_fields)).no_duplicates(),
        forall|i: int|
            0 <= i < networks_from(lines, all_fields).len() ==> #[trigger] networks_from(
                lines,
                all_fields,
            )[i].0.len() > 0,
    decreases lines.len(),
{
    if lines.len() > 0 {
        law_scan_lists_each_network_once(lines.drop_last(), all_fields);
        let acc = networks_from(lines.drop_last(), all_fields);
        match scan_entry(lines.last(), all_fields) {
            Some((s, g)) => {
                if s.len() > 0 && !ssids(acc).contains(s) {
                    assert(ssids(acc.push((s, g))) =~= ssids(acc).push(s));
                }
            },
            None => {},
        }
    }
}

} // verus!
