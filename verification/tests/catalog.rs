use apollo_music::catalog::{holds, Catalog, Playlist, Track, TrackFilter};

fn track(path: &str, artist: &str, album: &str, album_artist: &str, title: &str, duration: u64) -> Track {
    Track {
        path: path.to_string(),
        artist: artist.to_string(),
        album: album.to_string(),
        album_artist: album_artist.to_string(),
        title: title.to_string(),
        duration,
    }
}

fn strings(v: &[&str]) -> Vec<String> {
    v.iter().map(|s| s.to_string()).collect()
}

fn sample() -> Catalog {
    let mut c = Catalog::new();
    assert!(c.upsert_track("/m/a.mp3", "Muse", "Absolution", "Muse", "Hysteria", 0));
    assert!(c.upsert_track("/m/b.flac", "Muse", "Absolution", "Muse", "Hysteria", 227));
    assert!(c.upsert_track("/m/c.mp3", "Prince", "Purple Rain", "", "Purple Rain", 0));
    assert!(c.upsert_playlist("mix", "/m/mix.m3u"));
    assert!(c.upsert_playlist("old", "/m/old.m3u8"));
    c
}

#[test]
fn a_new_catalog_is_empty() {
    let c = Catalog::new();
    assert!(c.tracks().is_empty());
    assert!(c.playlists().is_empty());
    assert!(c.track_paths().is_empty());
    assert!(c.query_playlist_paths().is_empty());
}

#[test]
fn upsert_enters_a_new_path_behind_the_others() {
    let c = sample();
    assert_eq!(
        c.tracks(),
        &vec![
            track("/m/a.mp3", "Muse", "Absolution", "Muse", "Hysteria", 0),
            track("/m/b.flac", "Muse", "Absolution", "Muse", "Hysteria", 227),
            track("/m/c.mp3", "Prince", "Purple Rain", "", "Purple Rain", 0),
        ]
    );
    assert_eq!(c.track_paths(), strings(&["/m/a.mp3", "/m/b.flac", "/m/c.mp3"]));
}

#[test]
fn upsert_of_a_known_path_overwrites_nothing() {
    let mut c = sample();
    let before = c.tracks().clone();
    let playlists_before = c.playlists().clone();
    assert!(!c.upsert_track("/m/a.mp3", "Other", "Other album", "Other", "Other title", 99));
    assert_eq!(c.tracks(), &before);
    assert_eq!(c.playlists(), &playlists_before);
    assert_eq!(c.tracks()[0].artist, "Muse");
    assert_eq!(c.tracks()[0].album, "Absolution");
    assert_eq!(c.tracks()[0].title, "Hysteria");
    assert_eq!(c.tracks()[0].duration, 0);
}

#[test]
fn contains_track_goes_by_the_whole_path() {
    let c = sample();
    assert!(c.contains_track("/m/a.mp3"));
    assert!(!c.contains_track("/m/a.mp"));
    assert!(!c.contains_track("a.mp3"));
    assert!(!c.contains_track(""));
}

#[test]
fn update_track_duration_touches_one_track() {
    let mut c = sample();
    assert!(c.update_track_duration("/m/c.mp3", 521));
    assert_eq!(c.tracks()[2], track("/m/c.mp3", "Prince", "Purple Rain", "", "Purple Rain", 521));
    assert_eq!(c.tracks()[0].duration, 0);
    assert_eq!(c.tracks()[1].duration, 227);
    assert!(c.update_track_duration("/m/b.flac", 0));
    assert_eq!(c.tracks()[1].duration, 0);
}

#[test]
fn update_track_duration_of_an_unknown_path_changes_nothing() {
    let mut c = sample();
    let before = c.tracks().clone();
    assert!(!c.update_track_duration("/m/nowhere.mp3", 10));
    assert_eq!(c.tracks(), &before);
}

#[test]
fn prune_takes_out_exactly_the_missing_tracks() {
    let mut c = sample();
    let removed = c.prune_missing_tracks(&strings(&["/m/b.flac"]));
    assert_eq!(removed, strings(&["/m/b.flac"]));
    assert_eq!(
        c.tracks(),
        &vec![
            track("/m/a.mp3", "Muse", "Absolution", "Muse", "Hysteria", 0),
            track("/m/c.mp3", "Prince", "Purple Rain", "", "Purple Rain", 0),
        ]
    );
    assert_eq!(c.playlists().len(), 2);
}

#[test]
fn prune_reports_the_removed_paths_in_the_order_of_the_catalog() {
    let mut c = sample();
    let removed = c.prune_missing_tracks(&strings(&["/m/c.mp3", "/m/unknown.mp3", "/m/a.mp3"]));
    assert_eq!(removed, strings(&["/m/a.mp3", "/m/c.mp3"]));
    assert_eq!(c.track_paths(), strings(&["/m/b.flac"]));
}

#[test]
fn prune_with_nothing_missing_changes_nothing() {
    let mut c = sample();
    let before = c.tracks().clone();
    assert!(c.prune_missing_tracks(&Vec::new()).is_empty());
    assert_eq!(c.tracks(), &before);
}

#[test]
fn delete_track_takes_out_the_track_at_the_path() {
    let mut c = sample();
    assert!(c.delete_track("/m/a.mp3"));
    assert_eq!(c.track_paths(), strings(&["/m/b.flac", "/m/c.mp3"]));
    assert!(!c.delete_track("/m/a.mp3"));
    assert_eq!(c.track_paths(), strings(&["/m/b.flac", "/m/c.mp3"]));
}

#[test]
fn delete_tracks_by_artist_title_spares_the_kept_path_and_other_keys() {
    let mut c = sample();
    assert!(c.upsert_track("/m/d.wav", "Muse", "Live", "Muse", "Hysteria", 0));
    let removed = c.delete_tracks_by_artist_title("Muse", "Hysteria", "/m/b.flac");
    assert_eq!(removed, strings(&["/m/a.mp3", "/m/d.wav"]));
    assert_eq!(c.track_paths(), strings(&["/m/b.flac", "/m/c.mp3"]));
}

#[test]
fn delete_tracks_by_artist_title_with_an_unknown_kept_path_takes_all_of_the_key() {
    let mut c = sample();
    let removed = c.delete_tracks_by_artist_title("Muse", "Hysteria", "/m/none.mp3");
    assert_eq!(removed, strings(&["/m/a.mp3", "/m/b.flac"]));
    assert_eq!(c.track_paths(), strings(&["/m/c.mp3"]));
}

#[test]
fn query_all_gives_every_track() {
    let c = sample();
    assert_eq!(&c.query_tracks(&TrackFilter::All), c.tracks());
}

#[test]
fn query_by_artist_and_title_wants_both_to_be_equal() {
    let c = sample();
    let found = c.query_tracks(&TrackFilter::ByArtistTitle {
        artist: "Muse".to_string(),
        title: "Hysteria".to_string(),
    });
    assert_eq!(found.len(), 2);
    assert_eq!(found[0].path, "/m/a.mp3");
    assert_eq!(found[1].path, "/m/b.flac");
    let none = c.query_tracks(&TrackFilter::ByArtistTitle {
        artist: "Muse".to_string(),
        title: "Purple Rain".to_string(),
    });
    assert!(none.is_empty());
}

#[test]
fn query_without_duration_gives_the_tracks_of_duration_zero() {
    let c = sample();
    let found = c.query_tracks(&TrackFilter::WithoutDuration);
    assert_eq!(found.len(), 2);
    assert_eq!(found[0].path, "/m/a.mp3");
    assert_eq!(found[1].path, "/m/c.mp3");
}

#[test]
fn upsert_playlist_enters_a_new_path_and_ignores_a_known_one() {
    let mut c = sample();
    assert!(!c.upsert_playlist("renamed", "/m/mix.m3u"));
    assert_eq!(
        c.playlists(),
        &vec![
            Playlist { name: "mix".to_string(), path: "/m/mix.m3u".to_string() },
            Playlist { name: "old".to_string(), path: "/m/old.m3u8".to_string() },
        ]
    );
    assert!(c.upsert_playlist("mix", "/m/other/mix.m3u"));
    assert_eq!(
        c.query_playlist_paths(),
        strings(&["/m/mix.m3u", "/m/old.m3u8", "/m/other/mix.m3u"])
    );
    assert_eq!(c.tracks().len(), 3);
}

#[test]
fn prune_takes_out_exactly_the_missing_playlists() {
    let mut c = sample();
    let removed = c.prune_missing_playlists(&strings(&["/m/mix.m3u", "/m/a.mp3"]));
    assert_eq!(removed, strings(&["/m/mix.m3u"]));
    assert_eq!(c.query_playlist_paths(), strings(&["/m/old.m3u8"]));
    assert_eq!(c.tracks().len(), 3);
}

#[test]
fn duplicate_makes_an_equal_value() {
    let t = track("/m/a.mp3", "Muse", "Absolution", "Muse", "Hysteria", 12);
    assert_eq!(t.duplicate(), t);
    let p = Playlist { name: "mix".to_string(), path: "/m/mix.m3u".to_string() };
    assert_eq!(p.duplicate(), p);
}

#[test]
fn holds_looks_for_the_whole_text() {
    let list = strings(&["/m/a.mp3", "/m/b.mp3"]);
    assert!(holds(&list, &"/m/b.mp3".to_string()));
    assert!(!holds(&list, &"/m/b".to_string()));
    assert!(!holds(&Vec::new(), &"".to_string()));
}

#[test]
fn track_at_gives_the_track_of_the_path() {
    let c = sample();
    assert_eq!(
        c.track_at("/m/b.flac"),
        Some(track("/m/b.flac", "Muse", "Absolution", "Muse", "Hysteria", 227))
    );
    assert_eq!(c.track_at("/m/b"), None);
    assert_eq!(
        c.playlist_at("/m/old.m3u8"),
        Some(Playlist { name: "old".to_string(), path: "/m/old.m3u8".to_string() })
    );
    assert_eq!(c.playlist_at("/m/a.mp3"), None);
}
