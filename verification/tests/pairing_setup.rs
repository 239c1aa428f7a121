use r_audio::json::{JsonNumber, JsonValue};
use r_audio::pairing::{
    event_payload, expiry_to_stamp, line_payload, paired_identity, pairing_url, pairing_wait_url, SseBuffer,
};
use r_audio::setup::{
    bluetooth_devices, escape_markup, hosts_with_name, network_options, parse_form, route_request,
    scan_networks, scan_networks_all_fields, wifi_connect_args, wifi_credentials, SetupRoute,
};

fn obj(members: Vec<(&str, JsonValue)>) -> JsonValue {
    JsonValue::Object(members.into_iter().map(|(k, v)| (k.to_string(), v)).collect())
}

fn num(n: i64) -> JsonValue {
    JsonValue::Number(JsonNumber { as_u64: if n >= 0 { Some(n as u64) } else { None }, as_i64: Some(n) })
}

fn pairs(v: &[(&str, &str)]) -> Vec<(String, String)> {
    v.iter().map(|(a, b)| (a.to_string(), b.to_string())).collect()
}

#[test]
fn pairing_links() {
    assert_eq!(pairing_url("abc-123"), "https://raudio.bryantfuentes.com/auth?session=abc-123");
    assert_eq!(pairing_wait_url("s1"), "https://raudio.bryantfuentes.com/wait?session=s1");
}

#[test]
fn sse_lines_are_cut_at_line_feeds_across_chunks() {
    let mut b = SseBuffer::new();
    b.push_chunk(b"event: tok");
    assert_eq!(b.take_line(), None);
    b.push_chunk(b"en\ndata: {\"a\":1}\n\nrest");
    assert_eq!(b.take_line(), Some(b"event: token\n".to_vec()));
    assert_eq!(b.take_line(), Some(b"data: {\"a\":1}\n".to_vec()));
    assert_eq!(b.take_line(), Some(b"\n".to_vec()));
    assert_eq!(b.take_line(), None);
    b.push_chunk(b"!\n");
    assert_eq!(b.take_line(), Some(b"rest!\n".to_vec()));
}

#[test]
fn data_payload_is_trimmed() {
    assert_eq!(line_payload("  data:   {\"x\":2}  \r\n"), Some("{\"x\":2}".to_string()));
    assert_eq!(line_payload("data:"), Some(String::new()));
    assert_eq!(line_payload("event: token"), None);
    assert_eq!(line_payload("dat"), None);
}

#[test]
fn event_payload_reads_bytes_as_text() {
    assert_eq!(event_payload(&b"data: hello\n".to_vec()), Some("hello".to_string()));
    let mut bad = b"data: a".to_vec();
    bad.push(0xff);
    bad.push(b'\n');
    assert_eq!(event_payload(&bad), Some("a\u{fffd}".to_string()));
    assert_eq!(event_payload(&b": keep-alive\n".to_vec()), None);
}

#[test]
fn expiry_stamp_rules() {
    let with_at = obj(vec![("access_token", JsonValue::Str("t".into())), ("expires_at", JsonValue::Null)]);
    assert_eq!(expiry_to_stamp(&with_at), None);
    let with_in = obj(vec![("expires_in", num(1800))]);
    assert_eq!(expiry_to_stamp(&with_in), Some(1800));
    let none = obj(vec![("access_token", JsonValue::Str("t".into()))]);
    assert_eq!(expiry_to_stamp(&none), Some(3600));
    let text = obj(vec![("expires_in", JsonValue::Str("60".into()))]);
    assert_eq!(expiry_to_stamp(&text), Some(3600));
    let huge = obj(vec![("expires_in", num(i64::MAX))]);
    assert_eq!(expiry_to_stamp(&huge), Some(3600));
    let edge = obj(vec![("expires_in", num(i64::MAX / 1000))]);
    assert_eq!(expiry_to_stamp(&edge), Some(i64::MAX / 1000));
}

#[test]
fn paired_identity_defaults() {
    assert_eq!(paired_identity(None), ("Spotify User".to_string(), None));
    assert_eq!(paired_identity(Some((None, Some("u".into())))), ("Spotify User".to_string(), Some("u".to_string())));
    assert_eq!(paired_identity(Some((Some("Ann".into()), None))), ("Ann".to_string(), None));
}

#[test]
fn scan_cuts_at_first_colon_and_skips_repeats() {
    let out = b"Home:95\nCafe : 72 \n:40\nHome:10\nnocolon\nTV:60:WPA2\n";
    assert_eq!(
        scan_networks(out),
        pairs(&[("Home", "95"), ("Cafe", "72"), ("TV", "60:WPA2")])
    );
}

#[test]
fn scan_all_fields_takes_second_field() {
    let out = b"Home:95:WPA2\r\nGuest:40:\nHome:99:WPA2\n";
    assert_eq!(scan_networks_all_fields(out), pairs(&[("Home", "95"), ("Guest", "40")]));
}

#[test]
fn markup_is_escaped() {
    assert_eq!(escape_markup("a\"b<c>&"), "a&quot;b&lt;c&gt;&");
}

#[test]
fn option_list_formats() {
    let nets = pairs(&[("Home<5G>", "95"), ("Cafe", "72")]);
    assert_eq!(
        network_options(&nets, "%"),
        "<option value=\"Home&lt;5G&gt;\">Home&lt;5G&gt; (95%)</option>\n<option value=\"Cafe\">Cafe (72%)</option>\n"
    );
    assert_eq!(
        network_options(&pairs(&[("X", "1")]), "% signal"),
        "<option value=\"X\">X (1% signal)</option>\n"
    );
    assert_eq!(network_options(&Vec::new(), "%"), "");
}

#[test]
fn setup_routes() {
    assert_eq!(route_request(false, "/wifi"), SetupRoute::Form);
    assert_eq!(route_request(true, "/"), SetupRoute::Form);
    assert_eq!(route_request(true, "/connect"), SetupRoute::Connect);
    assert_eq!(route_request(false, "/connect"), SetupRoute::NotFound);
    assert_eq!(route_request(true, "/other"), SetupRoute::NotFound);
}

#[test]
fn form_is_percent_decoded() {
    let form = parse_form("ssid=My%20Net&password=p%26ss+word&junk&k=v=w");
    assert_eq!(form.get("ssid"), Some(&"My Net".to_string()));
    assert_eq!(form.get("password"), Some(&"p&ss word".to_string()));
    assert_eq!(form.get("junk"), None);
    assert_eq!(form.get("k"), Some(&"v=w".to_string()));
    assert_eq!(form.len(), 3);
}

#[test]
fn form_plus_is_a_space() {
    let form = parse_form("ssid=My+Net&password=a%3Db&junk");
    assert_eq!(form.get("ssid"), Some(&"My Net".to_string()));
    assert_eq!(form.get("password"), Some(&"a=b".to_string()));
    assert_eq!(form.len(), 2);
    let plus = parse_form("k=1%2B1");
    assert_eq!(plus.get("k"), Some(&"1+1".to_string()));
}

#[test]
fn form_invalid_utf8_kept_raw_and_later_wins() {
    let form = parse_form("a=%FF&a=2&b=%E2%82%AC");
    assert_eq!(form.get("a"), Some(&"2".to_string()));
    assert_eq!(form.get("b"), Some(&"\u{20ac}".to_string()));
    let raw = parse_form("c=%FF");
    assert_eq!(raw.get("c"), Some(&"%FF".to_string()));
}

#[test]
fn credentials_default_to_empty() {
    let form = parse_form("ssid=Home");
    assert_eq!(wifi_credentials(&form), ("Home".to_string(), String::new()));
    let both = parse_form("password=pw&ssid=Cafe");
    assert_eq!(wifi_credentials(&both), ("Cafe".to_string(), "pw".to_string()));
}

#[test]
fn connect_args_with_and_without_password() {
    assert_eq!(wifi_connect_args("Home", ""), vec!["device", "wifi", "connect", "Home"]);
    assert_eq!(
        wifi_connect_args("Home", "pw"),
        vec!["device", "wifi", "connect", "Home", "password", "pw"]
    );
}

#[test]
fn hosts_entry_renamed() {
    let hosts = "127.0.0.1\tlocalhost\n127.0.1.1\told\n::1\tip6\n";
    assert_eq!(hosts_with_name(hosts, "kiosk"), "127.0.0.1\tlocalhost\n127.0.1.1\tkiosk\n::1\tip6");
    assert_eq!(hosts_with_name("", "k"), "");
}

#[test]
fn bluetooth_devices_listed() {
    let out = b"Device AA:BB:CC:DD:EE:01 JBL Flip 6\nController 00:11 hci0\nDevice AA:BB\nDevice 11:22 \n";
    assert_eq!(
        bluetooth_devices(out),
        pairs(&[("AA:BB:CC:DD:EE:01", "JBL Flip 6"), ("11:22", "")])
    );
}
