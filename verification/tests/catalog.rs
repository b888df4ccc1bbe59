use mp3_player::track::has_mp3_extension;
use mp3_player::Library;
use mp3_player::Song;

fn song(path: &str, artist: &str, album: &str, title: &str, track_number: Option<u32>) -> Song {
    Song {
        file_path: path.to_string(),
        artist: artist.to_string(),
        album: album.to_string(),
        title: title.to_string(),
        track_number,
    }
}

fn paths(songs: &[Song]) -> Vec<String> {
    songs.iter().map(|s| s.file_path.clone()).collect()
}

#[test]
fn empty_library_has_no_songs() {
    let lib = Library::new();
    assert!(lib.get_sorted_songs().is_empty());
}

#[test]
fn add_song_keeps_insertion_order() {
    let mut lib = Library::new();
    lib.add_song(song("a.mp3", "X", "B", "One", Some(1)));
    lib.add_song(song("b.mp3", "Y", "A", "Two", Some(2)));
    lib.add_song(song("c.mp3", "Z", "C", "Three", None));
    assert_eq!(paths(lib.get_sorted_songs()), vec!["a.mp3", "b.mp3", "c.mp3"]);
}

#[test]
fn add_song_with_same_path_overwrites_in_place() {
    let mut lib = Library::new();
    lib.add_song(song("a.mp3", "X", "B", "Old", Some(1)));
    lib.add_song(song("b.mp3", "Y", "A", "Mid", Some(2)));
    lib.add_song(song("a.mp3", "X2", "B2", "New", Some(3)));
    let songs = lib.get_sorted_songs();
    assert_eq!(songs.len(), 2);
    assert_eq!(paths(songs), vec!["a.mp3", "b.mp3"]);
    assert_eq!(songs[0].title, "New");
    assert_eq!(songs[0].artist, "X2");
}

#[test]
fn catalog_paths_stay_unique_and_complete() {
    let mut lib = Library::new();
    lib.add_song(song("a.mp3", "X", "B", "One", Some(1)));
    lib.add_song(song("b.mp3", "Y", "A", "Two", Some(2)));
    lib.add_song(song("a.mp3", "X", "B", "One again", Some(1)));
    lib.add_song(song("c.mp3", "Z", "C", "Three", None));
    let mut seen = paths(lib.get_sorted_songs());
    assert_eq!(seen.len(), 3);
    seen.sort();
    assert_eq!(seen, vec!["a.mp3", "b.mp3", "c.mp3"]);
}

#[test]
fn from_tag_fills_missing_fields_with_sentinels() {
    let s = Song::from_tag("a.mp3".to_string(), None, None, None, None);
    assert_eq!(s.file_path, "a.mp3");
    assert_eq!(s.artist, "Unknown Artist");
    assert_eq!(s.album, "Unknown Album");
    assert_eq!(s.title, "Unknown Title");
    assert_eq!(s.track_number, None);
}

#[test]
fn from_tag_keeps_present_fields() {
    let s = Song::from_tag(
        "b.mp3".to_string(),
        Some("Ann".to_string()),
        Some("Blue".to_string()),
        Some("Hello".to_string()),
        Some(7),
    );
    assert_eq!(s.artist, "Ann");
    assert_eq!(s.album, "Blue");
    assert_eq!(s.title, "Hello");
    assert_eq!(s.track_number, Some(7));
}

#[test]
fn mp3_extension_rule() {
    assert!(has_mp3_extension("a.mp3"));
    assert!(has_mp3_extension("dir/song.tar.mp3"));
    assert!(!has_mp3_extension("a.MP3"));
    assert!(!has_mp3_extension("a.wav"));
    assert!(!has_mp3_extension("nodot"));
    assert!(!has_mp3_extension(".mp3"));
    assert!(!has_mp3_extension("dir/.mp3"));
    assert!(!has_mp3_extension("mp3"));
}

#[test]
fn sort_by_album_two_tracks_example() {
    let mut lib = Library::new();
    lib.add_song(song("a.mp3", "X", "B", "One", Some(2)));
    lib.add_song(song("b.mp3", "Y", "A", "Two", Some(1)));
    lib.sort_by_album();
    assert_eq!(paths(lib.get_sorted_songs()), vec!["b.mp3", "a.mp3"]);
}

#[test]
fn sort_by_album_breaks_ties_by_track_number() {
    let mut lib = Library::new();
    lib.add_song(song("three.mp3", "X", "A", "Three", Some(3)));
    lib.add_song(song("none.mp3", "X", "A", "Untagged", None));
    lib.add_song(song("one.mp3", "X", "A", "One", Some(1)));
    lib.sort_by_album();
    assert_eq!(
        paths(lib.get_sorted_songs()),
        vec!["one.mp3", "three.mp3", "none.mp3"]
    );
}

#[test]
fn sort_by_album_is_idempotent() {
    let mut lib = Library::new();
    lib.add_song(song("a.mp3", "X", "Zoo", "One", Some(2)));
    lib.add_song(song("b.mp3", "Y", "Arc", "Two", None));
    lib.add_song(song("c.mp3", "Z", "Arc", "Three", Some(1)));
    lib.add_song(song("d.mp3", "W", "Mid", "Four", Some(9)));
    lib.sort_by_album();
    let once = paths(lib.get_sorted_songs());
    lib.sort_by_album();
    let twice = paths(lib.get_sorted_songs());
    assert_eq!(once, twice);
}

#[test]
fn sort_by_album_is_stable_on_equal_keys() {
    let mut lib = Library::new();
    lib.add_song(song("first.mp3", "X", "A", "First", Some(1)));
    lib.add_song(song("zz.mp3", "Y", "B", "Other", Some(1)));
    lib.add_song(song("second.mp3", "Z", "A", "Second", Some(1)));
    lib.sort_by_album();
    let order = paths(lib.get_sorted_songs());
    assert_eq!(order, vec!["first.mp3", "second.mp3", "zz.mp3"]);
}

#[test]
fn search_with_empty_query_returns_every_track_once() {
    let mut lib = Library::new();
    lib.add_song(song("a.mp3", "X", "B", "Alpha", Some(1)));
    lib.add_song(song("b.mp3", "Y", "A", "Beta", Some(2)));
    lib.add_song(song("c.mp3", "Z", "C", "Gamma", None));
    let hits = lib.search_by_title("");
    assert_eq!(paths(&hits), vec!["a.mp3", "b.mp3", "c.mp3"]);
}

#[test]
fn search_is_case_insensitive() {
    let mut lib = Library::new();
    lib.add_song(song("a.mp3", "X", "B", "Love Song", Some(1)));
    lib.add_song(song("b.mp3", "Y", "A", "Glove", Some(2)));
    lib.add_song(song("c.mp3", "Z", "C", "Hate", None));
    let upper = lib.search_by_title("LOVE");
    let lower = lib.search_by_title("love");
    assert_eq!(paths(&upper), paths(&lower));
    assert_eq!(paths(&upper), vec!["a.mp3", "b.mp3"]);
}

#[test]
fn search_folds_the_title_not_only_the_query() {
    let mut lib = Library::new();
    lib.add_song(song("a.mp3", "X", "B", "LOVE ME", Some(1)));
    let hits = lib.search_by_title("love");
    assert_eq!(hits.len(), 1);
    assert_eq!(hits[0].file_path, "a.mp3");
}

#[test]
fn search_matches_substrings_in_catalog_order() {
    let mut lib = Library::new();
    lib.add_song(song("a.mp3", "X", "B", "Glove", Some(1)));
    lib.add_song(song("b.mp3", "Y", "A", "Stone", Some(2)));
    lib.add_song(song("c.mp3", "Z", "C", "Lover", None));
    let hits = lib.search_by_title("ove");
    assert_eq!(paths(&hits), vec!["a.mp3", "c.mp3"]);
    assert!(lib.search_by_title("xyz").is_empty());
}
