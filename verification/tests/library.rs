use ncmprs::library::{Library, Settings, Song};

fn song(title: &str, artist: &str, album: &str) -> Song {
    Song {
        title: title.to_string(),
        artist: artist.to_string(),
        album: album.to_string(),
        duration_ms: Some(180_000),
        path: format!("/music/{}/{}/{}.flac", artist, album, title),
    }
}

fn sample() -> Library {
    Library::from_songs(vec![
        song("Intro", "Zappa", "Hot Rats"),
        song("Peaches", "Zappa", "Hot Rats"),
        song("So What", "Miles Davis", "Kind of Blue"),
        song("Airegin", "Miles Davis", "Cookin'"),
        song("Willie", "Zappa", "Apostrophe"),
        song("Blue in Green", "Miles Davis", "Kind of Blue"),
        song("Aja", "Steely Dan", "Aja"),
    ])
}

#[test]
fn artists_are_sorted_and_unique() {
    let lib = sample();
    assert_eq!(lib.artists, vec!["Miles Davis", "Steely Dan", "Zappa"]);
}

#[test]
fn albums_of_each_artist_are_sorted() {
    let lib = sample();
    assert_eq!(lib.artist_albums.len(), 3);
    assert_eq!(lib.artist_albums[0], vec!["Cookin'", "Kind of Blue"]);
    assert_eq!(lib.artist_albums[1], vec!["Aja"]);
    assert_eq!(lib.artist_albums[2], vec!["Apostrophe", "Hot Rats"]);
}

#[test]
fn album_lists_hold_songs_in_library_order() {
    let lib = sample();
    assert_eq!(lib.album_songs[0], vec![vec![3], vec![2, 5]]);
    assert_eq!(lib.album_songs[1], vec![vec![6]]);
    assert_eq!(lib.album_songs[2], vec![vec![4], vec![0, 1]]);
}

#[test]
fn albums_for_artist_lists_albums_in_order() {
    let lib = sample();
    assert_eq!(lib.albums_for_artist(&"Zappa".to_string()), vec!["Apostrophe", "Hot Rats"]);
    assert_eq!(lib.albums_for_artist(&"Steely Dan".to_string()), vec!["Aja"]);
}

#[test]
fn songs_for_album_lists_positions() {
    let lib = sample();
    assert_eq!(
        lib.songs_for_album(&"Miles Davis".to_string(), &"Kind of Blue".to_string()),
        &vec![2, 5]
    );
    assert_eq!(lib.songs_for_album(&"Zappa".to_string(), &"Hot Rats".to_string()), &vec![0, 1]);
}

#[test]
fn same_album_name_under_two_artists_stays_apart() {
    let lib = Library::from_songs(vec![
        song("A", "Second", "Greatest Hits"),
        song("B", "First", "Greatest Hits"),
        song("C", "Second", "Greatest Hits"),
    ]);
    assert_eq!(lib.artists, vec!["First", "Second"]);
    assert_eq!(lib.songs_for_album(&"First".to_string(), &"Greatest Hits".to_string()), &vec![1]);
    assert_eq!(lib.songs_for_album(&"Second".to_string(), &"Greatest Hits".to_string()), &vec![0, 2]);
}

#[test]
fn empty_library_has_empty_indexes() {
    let lib = Library::from_songs(Vec::new());
    assert!(lib.artists.is_empty());
    assert!(lib.artist_albums.is_empty());
    assert!(lib.album_songs.is_empty());
}

#[test]
fn rebuilding_replaces_stale_indexes() {
    let mut lib = sample();
    lib.artists = vec!["Nobody".to_string()];
    lib.artist_albums = vec![vec!["Nothing".to_string()]];
    lib.album_songs = vec![vec![vec![42]]];
    lib.rebuild_indexes();
    let fresh = sample();
    assert_eq!(lib.artists, fresh.artists);
    assert_eq!(lib.artist_albums, fresh.artist_albums);
    assert_eq!(lib.album_songs, fresh.album_songs);
}

#[test]
fn every_song_is_listed_under_its_album() {
    let lib = sample();
    for (k, s) in lib.songs.iter().enumerate() {
        assert!(lib.songs_for_album(&s.artist, &s.album).contains(&k));
    }
}

#[test]
fn artists_sort_by_code_point() {
    let lib = Library::from_songs(vec![
        song("1", "beta", "x"),
        song("2", "Alpha", "x"),
        song("3", "Éclair", "x"),
        song("4", "alpha", "x"),
        song("5", "", "x"),
    ]);
    assert_eq!(lib.artists, vec!["", "Alpha", "alpha", "beta", "Éclair"]);
}

#[test]
fn song_from_tags_keeps_read_values() {
    let s = Song::from_tags(
        Some("Title".to_string()),
        Some("Artist".to_string()),
        "Album".to_string(),
        Some(215_500),
        "/m/a.flac".to_string(),
    );
    assert_eq!(s.title, "Title");
    assert_eq!(s.artist, "Artist");
    assert_eq!(s.album, "Album");
    assert_eq!(s.duration_ms, Some(215_500));
    assert_eq!(s.path, "/m/a.flac");
}

#[test]
fn song_from_tags_fills_in_missing_values() {
    let s = Song::from_tags(None, None, "Album".to_string(), None, "/m/b.flac".to_string());
    assert_eq!(s.title, "Could not read title");
    assert_eq!(s.artist, "Could not read artist");
    assert_eq!(s.duration_ms, Some(100));
}

#[test]
fn duration_in_whole_seconds() {
    let mut s = song("t", "a", "b");
    s.duration_ms = Some(215_999);
    assert_eq!(s.duration_secs_or_one(), 215);
    s.duration_ms = Some(100);
    assert_eq!(s.duration_secs_or_one(), 0);
    s.duration_ms = None;
    assert_eq!(s.duration_secs_or_one(), 1);
}

#[test]
fn settings_hold_the_library_path() {
    let s = Settings { library_path: "/mnt/media/music".to_string() };
    assert_eq!(s.library_path, "/mnt/media/music");
}

#[test]
fn song_and_queue_labels() {
    let mut s = song("So What", "Miles Davis", "Kind of Blue");
    s.duration_ms = Some(562_900);
    assert_eq!(s.song_label(), "So What (9:22)");
    assert_eq!(s.queue_label(), "So What (9:22))");
    s.duration_ms = Some(100);
    assert_eq!(s.song_label(), "So What (0:00)");
}
