use luma::analytics::{rank_by_plays, PlayStats, SongPlayCount};
use luma::lyrics::{choose_lyrics, is_blank, lyrics_query_url, LyricsStore};
use luma::playlist::{playlist_file_name, sanitize_name, sort_newest_first, Playlist};
use luma::settings::AppSettings;

#[test]
fn blank_means_only_white_space() {
    assert!(is_blank(""));
    assert!(is_blank("  \t\n\r"));
    assert!(is_blank("\u{3000}\u{a0}"));
    assert!(!is_blank("  la  "));
}

#[test]
fn synced_lyrics_win_over_plain_ones() {
    let s = |x: &str| Some(x.to_string());
    assert_eq!(choose_lyrics(s("[00:01] hi"), s("hi")), s("[00:01] hi"));
    assert_eq!(choose_lyrics(s("   "), s("hi")), s("hi"));
    assert_eq!(choose_lyrics(None, s("hi")), s("hi"));
    assert_eq!(choose_lyrics(s(""), s(" \n")), None);
    assert_eq!(choose_lyrics(None, None), None);
}

#[test]
fn lyrics_url_percent_encodes_each_field() {
    assert_eq!(
        lyrics_query_url("Hey Jude", "The Beatles", "Past/Masters", 431),
        "https://lrclib.net/api/get?track_name=Hey%20Jude&artist_name=The%20Beatles&album_name=Past%2FMasters&duration=431"
    );
    assert_eq!(
        lyrics_query_url("a-b_c.d~e", "é", "", 0),
        "https://lrclib.net/api/get?track_name=a-b_c.d~e&artist_name=%C3%A9&album_name=&duration=0"
    );
}

#[test]
fn lyrics_store_saves_replaces_and_removes() {
    let mut store = LyricsStore::from_pairs(Vec::new());
    store.save("/a".to_string(), "one".to_string());
    store.save("/b".to_string(), "two".to_string());
    assert_eq!(store.get("/a").as_deref(), Some("one"));
    store.save("/a".to_string(), "uno".to_string());
    assert_eq!(store.get("/a").as_deref(), Some("uno"));
    store.save("/b".to_string(), "  ".to_string());
    assert_eq!(store.get("/b"), None);
    store.remove("/a");
    assert_eq!(store.get("/a"), None);
    assert!(store.into_pairs().is_empty());
}

#[test]
fn playlist_names_are_sanitized() {
    assert_eq!(sanitize_name("My Mix: 2024/Best!"), "My Mix 2024Best");
    assert_eq!(sanitize_name("rock-n-roll"), "rock-n-roll");
    assert_eq!(sanitize_name("Café ☕"), "Café ");
    assert_eq!(playlist_file_name("a/b"), "ab.json");
}

#[test]
fn playlist_tracks_have_no_duplicates() {
    let mut p = Playlist::new("Mix".to_string(), 5);
    assert!(p.add_track("/a".to_string()));
    assert!(p.add_track("/b".to_string()));
    assert!(!p.add_track("/a".to_string()));
    assert_eq!(p.tracks, vec!["/a".to_string(), "/b".to_string()]);
    assert!(p.remove_track("/a"));
    assert!(!p.remove_track("/a"));
    assert_eq!(p.tracks, vec!["/b".to_string()]);
    assert_eq!(p.name, "Mix");
    assert_eq!(p.created_at, 5);
}

#[test]
fn playlists_list_newest_first() {
    let ps = vec![
        Playlist::new("old".to_string(), 1),
        Playlist::new("new".to_string(), 30),
        Playlist::new("mid".to_string(), 10),
    ];
    let sorted = sort_newest_first(ps);
    let names: Vec<&str> = sorted.iter().map(|p| p.name.as_str()).collect();
    assert_eq!(names, vec!["new", "mid", "old"]);
}

#[test]
fn play_counts_increment_and_rank() {
    let mut stats = PlayStats::from_counts(Vec::new());
    assert_eq!(stats.increment("/a".to_string()), 1);
    assert_eq!(stats.increment("/b".to_string()), 1);
    assert_eq!(stats.increment("/b".to_string()), 2);
    assert_eq!(stats.increment("/c".to_string()), 1);
    assert_eq!(stats.increment("/b".to_string()), 3);
    assert_eq!(stats.increment("/c".to_string()), 2);
    let ranked = rank_by_plays(stats.into_counts());
    let got: Vec<(&str, u64)> = ranked.iter().map(|e| (e.path.as_str(), e.count)).collect();
    assert_eq!(got, vec![("/b", 3), ("/c", 2), ("/a", 1)]);
}

#[test]
fn play_count_saturates() {
    let mut stats = PlayStats::from_counts(vec![SongPlayCount { path: "/x".to_string(), count: u64::MAX }]);
    assert_eq!(stats.increment("/x".to_string()), u64::MAX);
}

#[test]
fn default_settings() {
    let s = AppSettings::with_music_directory("/home/u/Music".to_string());
    assert_eq!(s.music_directory, "/home/u/Music");
    assert_eq!(s.theme, "dark");
    assert_eq!(s.seek_interval, 10);
}
