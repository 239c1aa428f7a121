use r_audio::cache::{
    album_cache_file, artist_cache_file, cached_playlist_id, is_playlist_file_of, playlist_cache_file,
    safe_snapshot_id, PlaylistIndex, SpotifyCache, StringMap,
};
use r_audio::imaging::{cover_cache_file, cover_cache_name, decode_image, qr_code_image, spectrum_bucket};
use r_audio::covers::CoverCache;
use r_audio::providers::Track;

fn track(id: &str) -> Track {
    Track::spotify(String::new(), id.to_string(), "T".into(), "A".into(), String::new(), "1:00".into())
}

fn entry(name: &str, ids: &[&str]) -> (String, String, String, Vec<Track>) {
    (name.to_string(), "owner".to_string(), "cover".to_string(), ids.iter().map(|i| track(i)).collect())
}

#[test]
fn string_map_insert_replace_remove() {
    let mut m: StringMap<u32> = StringMap::new();
    m.insert("a".to_string(), 1);
    m.insert("b".to_string(), 2);
    m.insert("a".to_string(), 3);
    assert_eq!(m.len(), 2);
    assert_eq!(m.get("a"), Some(&3));
    assert_eq!(m.remove("a"), Some(3));
    assert_eq!(m.get("a"), None);
    assert_eq!(m.remove("zz"), None);
    assert_eq!(m.keys(), vec!["b".to_string()]);
}

#[test]
fn index_add_keeps_and_adds() {
    let mut ix = PlaylistIndex::new();
    ix.add_playlist("p1", &vec![track("t1"), track("t2")]);
    ix.add_playlist("p2", &vec![track("t2"), track("t2")]);
    assert_eq!(ix.playlists_containing("t1"), vec!["p1".to_string()]);
    assert_eq!(ix.playlists_containing("t2"), vec!["p1".to_string(), "p2".to_string()]);
    assert!(ix.playlists_containing("t9").is_empty());
}

#[test]
fn index_replace_lists_exactly_current_tracks() {
    let mut ix = PlaylistIndex::new();
    ix.add_playlist("p1", &vec![track("t1"), track("t2")]);
    ix.add_playlist("p2", &vec![track("t1")]);
    ix.replace_playlist("p1", &vec![track("t3")]);
    assert_eq!(ix.playlists_containing("t1"), vec!["p2".to_string()]);
    assert!(ix.playlists_containing("t2").is_empty());
    assert_eq!(ix.playlists_containing("t3"), vec!["p1".to_string()]);
}

#[test]
fn cache_saved_playlist_is_read_back_and_indexed() {
    let mut c = SpotifyCache::new();
    assert!(c.get_playlist("p1").is_none());
    c.save_playlist("p1", entry("Mix", &["a", "b"]));
    assert_eq!(c.get_playlist("p1").unwrap().0, "Mix");
    assert_eq!(c.get_playlists_containing_track("a"), vec!["p1".to_string()]);
    c.save_playlist("p1", entry("Mix2", &["b"]));
    assert_eq!(c.get_playlist("p1").unwrap().0, "Mix2");
    assert!(c.get_playlists_containing_track("a").is_empty());
}

#[test]
fn cache_initialize_index_loads_in_order() {
    let mut c = SpotifyCache::new();
    c.initialize_index(vec![
        ("p1".to_string(), entry("One", &["a"])),
        ("p2".to_string(), entry("Two", &["a", "b"])),
    ]);
    assert_eq!(c.get_playlist("p2").unwrap().0, "Two");
    assert_eq!(c.get_playlists_containing_track("a"), vec!["p1".to_string(), "p2".to_string()]);
}

#[test]
fn cache_tracks_artists_albums_user_playlists() {
    let mut c = SpotifyCache::new();
    c.insert_track("t1".to_string(), track("t1"));
    assert_eq!(c.get_track("t1").unwrap().id, "t1");
    assert!(c.get_track("t2").is_none());
    assert!(c.get_user_playlists().is_none());
    c.save_user_playlists(vec![track("p")]);
    assert_eq!(c.get_user_playlists().unwrap().len(), 1);
    c.save_artist("ar", ("Name".into(), "img".into(), vec![track("x")], vec![]));
    assert_eq!(c.get_artist("ar").unwrap().0, "Name");
    c.save_album("al", entry("Album", &["y"]));
    assert_eq!(c.get_album("al").unwrap().3.len(), 1);
    c.load_playlist("pd", entry("Disk", &["z"]));
    assert_eq!(c.get_playlists_containing_track("z"), vec!["pd".to_string()]);
}

#[test]
fn user_cache_path_sanitises_name() {
    assert_eq!(
        SpotifyCache::get_user_cache_path("Ann Lee!", "playlists"),
        ".cache/user_Ann_Lee__playlists.json"
    );
    assert_eq!(SpotifyCache::get_user_cache_path("Jos\u{e9}", "recent"), ".cache/user_Jos\u{e9}_recent.json");
}

#[test]
fn disk_file_names() {
    assert_eq!(safe_snapshot_id("ab/c+d=="), "ab_c-d");
    assert_eq!(playlist_cache_file("p1", "x/y+z="), ".cache/playlists/p1_x_y-z.json");
    assert_eq!(artist_cache_file("a1"), ".cache/artists/a1.json");
    assert_eq!(album_cache_file("b1"), ".cache/albums/b1.json");
    assert!(is_playlist_file_of("p1_snap.json", "p1"));
    assert!(!is_playlist_file_of("p2_snap.json", "p1"));
}

#[test]
fn playlist_id_from_file_name() {
    assert_eq!(cached_playlist_id("p1_snap.json"), Some("p1".to_string()));
    assert_eq!(cached_playlist_id("my_list_abc.json"), Some("my_list".to_string()));
    assert_eq!(cached_playlist_id("p1snap.json"), None);
    assert_eq!(cached_playlist_id("p1_snap.txt"), None);
    assert_eq!(cached_playlist_id(".json"), None);
    assert_eq!(cached_playlist_id("a_b.tar.json"), Some("a".to_string()));
}

#[test]
fn cover_cache_names() {
    assert_eq!(cover_cache_name("t1", "https://i.scdn.co/image/ab67"), "ab67");
    assert_eq!(cover_cache_name("t1", ""), "t1");
    assert_eq!(cover_cache_name("t1", "noslash"), "t1");
    assert_eq!(cover_cache_file("ab67"), ".cache/images/ab67.png");
}

#[test]
fn spectrum_bucket_is_djb2_mod_1200() {
    assert_eq!(spectrum_bucket(""), 5381 % 1200);
    assert_eq!(spectrum_bucket("a"), (5381u32 * 33 + 97) % 1200);
    let mut h: u32 = 5381;
    for b in "4uLU6hMCjMI75M1A2tKUQC".bytes() {
        h = (h << 5).wrapping_add(h).wrapping_add(b as u32);
    }
    assert_eq!(spectrum_bucket("4uLU6hMCjMI75M1A2tKUQC"), h % 1200);
}

#[test]
fn qr_code_is_a_decoded_square_picture() {
    let img = qr_code_image("http://10.42.0.1:8888/wifi").expect("qr code");
    assert_eq!(img.width, 250);
    assert_eq!(img.height, 250);
    assert_eq!(img.pixels.len(), 250 * 250 * 4);
    assert!(img.pixels.iter().any(|&b| b == 0));
    assert!(img.pixels.iter().any(|&b| b == 255));
}

#[test]
fn undecodable_bytes_give_no_picture() {
    assert!(decode_image(b"not an image").is_none());
    assert!(decode_image(&[]).is_none());
}

#[test]
fn index_lists_a_playlist_once_per_track() {
    let mut c = SpotifyCache::new();
    c.save_playlist("p1", entry("Mix", &["a", "a", "b", "a"]));
    c.save_playlist("p1", entry("Mix", &["a", "b", "a"]));
    c.save_playlist("p2", entry("Other", &["a"]));
    c.initialize_index(vec![("p1".to_string(), entry("Mix", &["a", "a"]))]);
    assert_eq!(c.get_playlists_containing_track("a"), vec!["p1".to_string(), "p2".to_string()]);
    assert_eq!(c.get_playlists_containing_track("b"), vec!["p1".to_string()]);
}

#[test]
fn cover_cache_keeps_the_first_picture_and_lets_the_oldest_go() {
    let mut covers = CoverCache::new(2);
    assert_eq!(covers.lookup("x"), None);
    assert_eq!(covers.remember("x", 1), (1, None));
    assert_eq!(covers.remember("x", 2), (1, None));
    assert_eq!(covers.remember("y", 3), (3, None));
    // "x" is now the most recently used, so "y" goes when "z" comes.
    assert_eq!(covers.lookup("x"), Some(1));
    assert_eq!(covers.remember("z", 4), (4, Some(3)));
    assert_eq!(covers.lookup("y"), None);
    assert_eq!(covers.lookup("z"), Some(4));
    assert_eq!(covers.lookup("x"), Some(1));
}
