use studymood::music::{
    build_catalogue, can_truncate_name, catalogue_tracks, mime_is_audio, track_for, AppState, FileEntry,
    MusicInfo, TrackMap,
};

fn entry(full: &str, rel: &str, name: Option<&str>) -> FileEntry {
    FileEntry {
        full_path: full.to_string(),
        relative_path: rel.to_string(),
        file_name: name.map(|n| n.to_string()),
    }
}

#[test]
fn catalogue_keeps_audio_files() {
    let entries = vec![
        entry("./music/a/song.mp3", "a/song.mp3", Some("song.mp3")),
        entry("./music/notes.txt", "notes.txt", Some("notes.txt")),
        entry("./music/b.ogg", "b.ogg", Some("b.ogg")),
    ];
    let map = catalogue_tracks(&entries).expect("no stop");
    assert_eq!(map.len(), 2);
    let t = map.get("a/song.mp3").expect("song");
    assert_eq!(t.file(), "song");
    assert_eq!(t.path(), "a/song.mp3");
    assert_eq!(t.mime(), "audio/mpeg");
    assert_eq!(map.get("b.ogg").expect("b").mime(), "audio/ogg");
    assert!(map.get("notes.txt").is_none());
}

#[test]
fn five_letter_extension_keeps_its_dot() {
    let entries = vec![entry("/m/x.flac", "x.flac", Some("x.flac"))];
    let map = catalogue_tracks(&entries).unwrap();
    assert_eq!(map.get("x.flac").unwrap().file(), "x.");
}

#[test]
fn unreadable_name_is_skipped() {
    let entries = vec![entry("/m/x.mp3", "x.mp3", None)];
    assert_eq!(catalogue_tracks(&entries).unwrap().len(), 0);
}

#[test]
fn short_audio_name_stops_the_scan() {
    // A name of exactly four bytes loses all of them.
    let ok = vec![entry("/m/x.mp3", "x.mp3", Some("abcd"))];
    assert_eq!(catalogue_tracks(&ok).unwrap().get("x.mp3").unwrap().file(), "");
    let wide = vec![entry("/m/é.mp3", "é.mp3", Some("é.mp3"))];
    assert_eq!(catalogue_tracks(&wide).unwrap().get("é.mp3").unwrap().file(), "é");
    let short = vec![entry("/m/x.mp3", "x.mp3", Some("mp3"))];
    assert!(catalogue_tracks(&short).is_none());
    let split = vec![entry("/m/x.mp3", "x.mp3", Some("aé.mp"))];
    assert!(catalogue_tracks(&split).is_none());
}

#[test]
fn dot_file_has_no_extension() {
    let entries = vec![entry("/m/.mp3", ".mp3", Some(".mp3"))];
    assert_eq!(catalogue_tracks(&entries).unwrap().len(), 0);
}

#[test]
fn later_file_with_same_path_wins() {
    let entries = vec![
        entry("/m/a.mp3", "a", Some("first.mp3")),
        entry("/m/a.ogg", "a", Some("second.ogg")),
    ];
    let map = catalogue_tracks(&entries).unwrap();
    assert_eq!(map.len(), 1);
    assert_eq!(map.get("a").unwrap().file(), "second");
}

#[test]
fn build_with_given_media_types() {
    let entries = vec![entry("/m/a.bin", "a.bin", Some("a.bin"))];
    let map = build_catalogue(&entries, &vec!["audio/x-custom".to_string()]);
    assert_eq!(map.get("a.bin").unwrap().mime(), "audio/x-custom");
}

#[test]
fn audio_media_types() {
    assert!(mime_is_audio("audio/mpeg"));
    assert!(!mime_is_audio("audio"));
    assert!(!mime_is_audio("text/plain"));
    assert!(!mime_is_audio("Audio/mpeg"));
}

#[test]
fn truncatable_names() {
    assert!(can_truncate_name("abcd"));
    assert!(!can_truncate_name("abc"));
    assert!(!can_truncate_name("aé.mp"));
    assert!(can_truncate_name("é.mp3"));
}

#[test]
fn track_for_non_audio_is_none() {
    assert!(track_for(&entry("/x.txt", "x.txt", Some("x.txt")), &"text/plain".to_string()).is_none());
}

#[test]
fn insert_replaces_and_lists() {
    let mut map = TrackMap::new();
    map.insert(MusicInfo::new("a".to_string(), "p/a.mp3".to_string(), "audio/mpeg".to_string()));
    map.insert(MusicInfo::new("b".to_string(), "p/b.mp3".to_string(), "audio/mpeg".to_string()));
    map.insert(MusicInfo::new("c".to_string(), "p/a.mp3".to_string(), "audio/ogg".to_string()));
    assert_eq!(map.len(), 2);
    let paths: Vec<&str> = map.tracks().iter().map(|t| t.path()).map(|p| p.as_str()).collect();
    assert_eq!(paths, vec!["p/a.mp3", "p/b.mp3"]);
    assert_eq!(map.get("p/a.mp3").unwrap().file(), "c");
}

#[test]
fn app_state_holds_what_it_is_given() {
    let state = AppState::new("./music".to_string(), TrackMap::new());
    assert_eq!(state.music_dir, "./music");
    assert_eq!(state.tracks.len(), 0);
}
