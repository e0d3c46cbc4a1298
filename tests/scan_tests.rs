use luma::discover::{is_media_extension, select_media, FoundFile};
use luma::scan::{progress_event, ProgressEvent, ScanState};
use luma::thumbnails::{Thumbnail, ThumbnailCache};
use luma::song::{song_from_probe, Artwork, AudioProperties, ProbedFile, TagFields};

fn found(path: &str, ext: Option<&str>, size: u64) -> FoundFile {
    let file_name = path.rsplit('/').next().unwrap().to_string();
    FoundFile {
        path: path.to_string(),
        file_name,
        extension: ext.map(|e| e.to_string()),
        size,
    }
}

fn props(secs: u64) -> AudioProperties {
    AudioProperties {
        duration_seconds: secs,
        bitrate: Some(320),
        sample_rate: Some(44100),
        bit_depth: Some(16),
        channels: Some(2),
    }
}

fn tagged(title: Option<&str>, picture: Option<Vec<u8>>) -> TagFields {
    TagFields {
        title: title.map(|t| t.to_string()),
        artist: Some("Artist".to_string()),
        album: Some("Album".to_string()),
        genre: Some("Jazz".to_string()),
        track: Some(3),
        year: Some(1999),
        lyrics: None,
        first_picture: picture,
    }
}

#[test]
fn extension_whitelist_ignores_case() {
    for e in ["mp3", "MP3", "Flac", "wav", "M4A", "ogg", "OgG"] {
        assert!(is_media_extension(e), "{}", e);
    }
    for e in ["txt", "mp4", "jpg", "", "mp3 ", "flacc"] {
        assert!(!is_media_extension(e), "{}", e);
    }
}

#[test]
fn select_media_keeps_discovery_order() {
    let all = vec![
        found("/m/b.txt", Some("txt"), 1),
        found("/m/a.MP3", Some("MP3"), 2),
        found("/m/dir", None, 0),
        found("/m/c.flac", Some("flac"), 3),
        found("/m/d.jpg", Some("jpg"), 4),
        found("/m/e.ogg", Some("ogg"), 5),
    ];
    let picked = select_media(&all);
    let paths: Vec<&str> = picked.iter().map(|f| f.path.as_str()).collect();
    assert_eq!(paths, vec!["/m/a.MP3", "/m/c.flac", "/m/e.ogg"]);
}

#[test]
fn select_media_of_nothing_is_empty() {
    assert!(select_media(&Vec::new()).is_empty());
}

#[test]
fn progress_throttles_to_every_tenth_and_last() {
    assert_eq!(progress_event(1, 25), None);
    assert_eq!(progress_event(9, 25), None);
    assert_eq!(progress_event(10, 25), Some(ProgressEvent { current: 10, total: 25 }));
    assert_eq!(progress_event(20, 25), Some(ProgressEvent { current: 20, total: 25 }));
    assert_eq!(progress_event(25, 25), Some(ProgressEvent { current: 25, total: 25 }));
    assert_eq!(progress_event(3, 3), Some(ProgressEvent { current: 3, total: 3 }));
}

#[test]
fn scan_results_follow_discovery_order_whatever_the_completion_order() {
    let files = vec![
        found("/m/one.mp3", Some("mp3"), 10),
        found("/m/two.mp3", Some("mp3"), 20),
        found("/m/three.mp3", Some("mp3"), 30),
    ];
    let mut scan = ScanState::new(files);
    assert_eq!(scan.total(), 3);
    let mut events = Vec::new();
    for index in [2usize, 0, 1] {
        assert!(scan.is_pending(index));
        let probe = ProbedFile { tag: None, properties: props(60 + index as u64) };
        if let Some(e) = scan.complete(index, Some(probe), None, &ThumbnailCache::new()) {
            events.push(e);
        }
        assert!(!scan.is_pending(index));
    }
    assert_eq!(events, vec![ProgressEvent { current: 3, total: 3 }]);
    let songs = scan.finish();
    let paths: Vec<&str> = songs.iter().map(|s| s.path.as_str()).collect();
    assert_eq!(paths, vec!["/m/one.mp3", "/m/two.mp3", "/m/three.mp3"]);
    assert_eq!(songs[0].duration_seconds, 60);
    assert_eq!(songs[2].duration_seconds, 62);
    assert_eq!(songs[1].file_size_bytes, 20);
    assert_eq!(songs[1].title.as_deref(), Some("two.mp3"));
}

#[test]
fn progress_over_a_scan_rises_and_ends_at_total() {
    let n = 25usize;
    let files: Vec<FoundFile> = (0..n).map(|i| found(&format!("/m/{}.mp3", i), Some("mp3"), 1)).collect();
    let mut scan = ScanState::new(files);
    let mut currents = Vec::new();
    for index in (0..n).rev() {
        if let Some(e) = scan.complete(index, None, None, &ThumbnailCache::new()) {
            assert_eq!(e.total, n);
            currents.push(e.current);
        }
    }
    assert_eq!(currents, vec![10, 20, 25]);
    assert_eq!(scan.finish().len(), n);
}

#[test]
fn one_corrupt_file_among_ten_still_gives_ten_records() {
    let files: Vec<FoundFile> = (0..10).map(|i| found(&format!("/m/{}.flac", i), Some("flac"), 100)).collect();
    let mut scan = ScanState::new(files);
    for index in 0..10usize {
        let probe = if index == 4 {
            None
        } else {
            Some(ProbedFile { tag: Some(tagged(Some("Song"), None)), properties: props(200) })
        };
        scan.complete(index, probe, None, &ThumbnailCache::new());
    }
    let songs = scan.finish();
    assert_eq!(songs.len(), 10);
    assert_eq!(songs[4].duration_seconds, 0);
    assert_eq!(songs[4].title.as_deref(), Some("4.flac"));
    assert!(songs[4].artist.is_none());
    assert!(songs[4].bitrate.is_none());
    assert_eq!(songs[3].duration_seconds, 200);
    assert_eq!(songs[3].title.as_deref(), Some("Song"));
}

#[test]
fn empty_scan_finishes_with_no_records() {
    let scan = ScanState::new(Vec::new());
    assert_eq!(scan.total(), 0);
    assert!(scan.finish().is_empty());
}

#[test]
fn tagged_song_takes_tag_fields_and_falls_back_to_file_name() {
    let probe = ProbedFile { tag: Some(tagged(None, Some(vec![1, 2, 3]))), properties: props(180) };
    let song = song_from_probe(
        "/m/x.mp3".to_string(),
        "x.mp3".to_string(),
        4096,
        Some(probe),
        Some("abc".to_string()),
    );
    assert_eq!(song.title.as_deref(), Some("x.mp3"));
    assert_eq!(song.artist.as_deref(), Some("Artist"));
    assert_eq!(song.track_number, Some(3));
    assert_eq!(song.year, Some(1999));
    assert_eq!(song.duration_seconds, 180);
    assert_eq!(song.sample_rate, Some(44100));
    assert_eq!(song.bits_per_sample, Some(16));
    assert_eq!(song.channels, Some(2));
    assert_eq!(song.file_size_bytes, 4096);
    assert!(song.has_album_art);
    assert_eq!(song.cover_handle.as_deref(), Some("abc"));
    assert!(matches!(song.artwork(), Artwork::Thumbnail(h) if h == "abc"));
}

#[test]
fn picture_without_thumbnail_keeps_art_flag_but_no_handle() {
    let probe = ProbedFile { tag: Some(tagged(Some("T"), Some(vec![9, 9]))), properties: props(5) };
    let song = song_from_probe("/p".to_string(), "p".to_string(), 1, Some(probe), None);
    assert!(song.has_album_art);
    assert!(song.cover_handle.is_none());
    assert!(matches!(song.artwork(), Artwork::Unprocessable));
}

#[test]
fn handle_without_picture_is_dropped() {
    let probe = ProbedFile { tag: Some(tagged(Some("T"), None)), properties: props(5) };
    let song = song_from_probe("/p".to_string(), "p".to_string(), 1, Some(probe), Some("ff".to_string()));
    assert!(!song.has_album_art);
    assert!(song.cover_handle.is_none());
    assert!(matches!(song.artwork(), Artwork::Absent));
}

#[test]
fn untagged_file_keeps_container_properties() {
    let probe = ProbedFile { tag: None, properties: props(42) };
    let song = song_from_probe("/p/q.wav".to_string(), "q.wav".to_string(), 7, Some(probe), None);
    assert_eq!(song.title.as_deref(), Some("q.wav"));
    assert_eq!(song.duration_seconds, 42);
    assert_eq!(song.bitrate, Some(320));
    assert!(song.album.is_none());
    assert!(!song.has_album_art);
}

#[test]
fn record_keeps_only_handles_the_cache_holds() {
    let files = vec![found("/m/a.mp3", Some("mp3"), 1), found("/m/b.mp3", Some("mp3"), 1)];
    let mut scan = ScanState::new(files);
    let mut cache = ThumbnailCache::new();
    let t = Thumbnail::from_encoded(vec![4, 5, 6]);
    let stored = t.handle().clone();
    cache.store(t);
    let with_art = || ProbedFile { tag: Some(tagged(Some("T"), Some(vec![1]))), properties: props(1) };
    scan.complete(0, Some(with_art()), Some(stored.clone()), &cache);
    scan.complete(1, Some(with_art()), Some("feedbeef".to_string()), &cache);
    let songs = scan.finish();
    assert_eq!(songs[0].cover_handle.as_deref(), Some(stored.as_str()));
    assert!(songs[1].has_album_art);
    assert_eq!(songs[1].cover_handle, None);
}
