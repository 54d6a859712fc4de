use apollo_music::catalog::{Catalog, Track};
use apollo_music::scanner::{
    entry_path, generate_path_from_pattern, index_library, is_audio_file, plan_file, ScannedFile,
    Step, Tags,
};

fn tags(artist: &str, album: &str, album_artist: &str, title: &str) -> Tags {
    Tags {
        artist: artist.to_string(),
        album: album.to_string(),
        album_artist: album_artist.to_string(),
        title: title.to_string(),
    }
}

fn scanned(path: &str, artist: &str, album: &str, title: &str) -> ScannedFile {
    ScannedFile { path: path.to_string(), tags: tags(artist, album, "", title) }
}

fn found() -> Vec<ScannedFile> {
    vec![
        scanned("/music/in/one.mp3", "Muse", "Absolution", "Hysteria"),
        scanned("/music/in/cover.jpg", "", "", ""),
        scanned("/music/in/two.flac", "Prince", "Purple Rain", "Purple Rain"),
        scanned("/music/in/three.wav", "", "", ""),
    ]
}

fn entered(path: &str, artist: &str, album: &str, title: &str) -> Track {
    Track {
        path: path.to_string(),
        artist: artist.to_string(),
        album: album.to_string(),
        album_artist: String::new(),
        title: title.to_string(),
        duration: 0,
    }
}

#[test]
fn pattern_puts_the_values_in_place_of_the_placeholders() {
    assert_eq!(
        generate_path_from_pattern(
            "{artist}/{album}/{title}.{ext}",
            "Muse",
            "Origin of Symmetry",
            "Plug In Baby",
            "mp3"
        ),
        "Muse/Origin of Symmetry/Plug In Baby.mp3"
    );
}

#[test]
fn pattern_puts_the_artist_in_place_of_the_album_artist() {
    assert_eq!(
        generate_path_from_pattern("{albumartist}/{artist} - {title}.{ext}", "Muse", "X", "Bliss", "flac"),
        "Muse/Muse - Bliss.flac"
    );
}

#[test]
fn pattern_replaces_every_occurrence_and_leaves_other_text() {
    assert_eq!(
        generate_path_from_pattern("{title}/{title}/{year}.{ext}", "a", "b", "c", "wav"),
        "c/c/{year}.wav"
    );
    assert_eq!(generate_path_from_pattern("", "a", "b", "c", "d"), "");
    assert_eq!(generate_path_from_pattern("plain", "a", "b", "c", "d"), "plain");
}

#[test]
fn pattern_replaces_in_the_result_of_the_replacement_before() {
    assert_eq!(
        generate_path_from_pattern("{artist}.{ext}", "{album}", "Live", "t", "mp3"),
        "Live.mp3"
    );
    assert_eq!(generate_path_from_pattern("{album}", "Muse", "{artist}", "t", "mp3"), "{artist}");
}

#[test]
fn pattern_with_empty_tags_leaves_gaps() {
    assert_eq!(
        generate_path_from_pattern("{artist}/{album}/{title}.{ext}", "", "", "", "mp3"),
        "//.mp3"
    );
}

#[test]
fn audio_files_are_mp3_flac_and_wav() {
    assert!(is_audio_file("/m/a.mp3"));
    assert!(is_audio_file("a.flac"));
    assert!(is_audio_file("/m/x.y.wav"));
    assert!(!is_audio_file("/m/a.m4a"));
    assert!(!is_audio_file("/m/a.MP3"));
    assert!(!is_audio_file("/m/mp3"));
    assert!(!is_audio_file("/m/.mp3"));
    assert!(is_audio_file("/m/a.mp3/"));
    assert!(!is_audio_file("/m/a.mp3/.."));
    assert!(!is_audio_file("/m/a.mp3x"));
    assert!(!is_audio_file(""));
}

#[test]
fn tags_that_are_absent_are_empty() {
    assert_eq!(
        Tags::from_fields(Some("Muse".to_string()), None, None, Some("Bliss".to_string())),
        tags("Muse", "", "", "Bliss")
    );
    assert_eq!(Tags::from_fields(None, None, None, None), Tags::empty());
    assert_eq!(Tags::empty(), tags("", "", "", ""));
}

#[test]
fn plan_ignores_what_is_no_track() {
    let file = scanned("/music/cover.jpg", "Muse", "A", "T");
    assert_eq!(plan_file(&file, "/music", Some("{artist}/{title}.{ext}"), false), Step::Ignore);
    assert_eq!(plan_file(&file, "/music", None, false), Step::Ignore);
    assert_eq!(entry_path(&file, &Step::Ignore, true), None);
}

#[test]
fn plan_without_a_pattern_enters_the_file_where_it_is() {
    let file = scanned("/music/in/one.mp3", "Muse", "Absolution", "Hysteria");
    assert_eq!(plan_file(&file, "/music", None, false), Step::Index);
    assert_eq!(plan_file(&file, "/music", None, true), Step::Index);
    assert_eq!(entry_path(&file, &Step::Index, false), Some("/music/in/one.mp3".to_string()));
}

#[test]
fn plan_moves_a_file_that_is_not_where_the_pattern_wants_it() {
    let file = scanned("/music/in/one.mp3", "Muse", "Absolution", "Hysteria");
    let step = plan_file(&file, "/music", Some("{artist}/{album}/{title}.{ext}"), false);
    assert_eq!(step, Step::Move("/music/Muse/Absolution/Hysteria.mp3".to_string()));
    assert_eq!(
        entry_path(&file, &step, true),
        Some("/music/Muse/Absolution/Hysteria.mp3".to_string())
    );
    assert_eq!(entry_path(&file, &step, false), Some("/music/in/one.mp3".to_string()));
}

#[test]
fn plan_reports_the_move_in_a_dry_run() {
    let file = scanned("/music/in/one.mp3", "Muse", "Absolution", "Hysteria");
    let step = plan_file(&file, "/music", Some("{artist}/{album}/{title}.{ext}"), true);
    assert_eq!(step, Step::Report("/music/Muse/Absolution/Hysteria.mp3".to_string()));
    assert_eq!(entry_path(&file, &step, false), Some("/music/in/one.mp3".to_string()));
    assert_eq!(entry_path(&file, &step, true), Some("/music/in/one.mp3".to_string()));
}

#[test]
fn plan_leaves_a_file_that_is_where_the_pattern_wants_it() {
    let file = scanned("/music/Muse/Absolution/Hysteria.mp3", "Muse", "Absolution", "Hysteria");
    assert_eq!(
        plan_file(&file, "/music", Some("{artist}/{album}/{title}.{ext}"), false),
        Step::Index
    );
    assert_eq!(
        plan_file(&file, "/music/", Some("{artist}/{album}/{title}.{ext}"), true),
        Step::Index
    );
}

#[test]
fn scan_enters_the_tracks_in_the_order_of_the_files() {
    let mut c = Catalog::new();
    let pass = index_library(&mut c, &Vec::new(), &found(), "/music", None, false, &Vec::new());
    assert_eq!(
        c.tracks(),
        &vec![
            entered("/music/in/one.mp3", "Muse", "Absolution", "Hysteria"),
            entered("/music/in/two.flac", "Prince", "Purple Rain", "Purple Rain"),
            entered("/music/in/three.wav", "", "", ""),
        ]
    );
    assert_eq!(
        pass.added,
        vec![
            "/music/in/one.mp3".to_string(),
            "/music/in/two.flac".to_string(),
            "/music/in/three.wav".to_string()
        ]
    );
    assert!(pass.removed.is_empty());
}

#[test]
fn scan_keeps_the_album_artist() {
    let mut c = Catalog::new();
    let files = vec![ScannedFile {
        path: "/music/a.mp3".to_string(),
        tags: tags("Artist", "Album", "Album artist", "Title"),
    }];
    index_library(&mut c, &Vec::new(), &files, "/music", None, false, &Vec::new());
    assert_eq!(c.tracks()[0].artist, "Artist");
    assert_eq!(c.tracks()[0].album, "Album");
    assert_eq!(c.tracks()[0].album_artist, "Album artist");
    assert_eq!(c.tracks()[0].title, "Title");
    assert_eq!(c.tracks()[0].duration, 0);
}

#[test]
fn second_scan_of_an_unchanged_directory_changes_nothing() {
    let mut c = Catalog::new();
    index_library(&mut c, &Vec::new(), &found(), "/music", None, false, &Vec::new());
    assert!(c.update_track_duration("/music/in/one.mp3", 200));
    let after_first = c.tracks().clone();
    let pass = index_library(&mut c, &Vec::new(), &found(), "/music", None, false, &Vec::new());
    assert_eq!(c.tracks(), &after_first);
    assert_eq!(c.tracks().len(), 3);
    assert!(pass.added.is_empty());
    assert!(pass.removed.is_empty());
}

#[test]
fn scan_after_a_deletion_removes_that_track_and_no_other() {
    let mut c = Catalog::new();
    index_library(&mut c, &Vec::new(), &found(), "/music", None, false, &Vec::new());
    let mut left = found();
    left.remove(2);
    let pass = index_library(
        &mut c,
        &vec!["/music/in/two.flac".to_string()],
        &left,
        "/music",
        None,
        false,
        &Vec::new(),
    );
    assert_eq!(pass.removed, vec!["/music/in/two.flac".to_string()]);
    assert!(pass.added.is_empty());
    assert_eq!(
        c.tracks(),
        &vec![
            entered("/music/in/one.mp3", "Muse", "Absolution", "Hysteria"),
            entered("/music/in/three.wav", "", "", ""),
        ]
    );
}

#[test]
fn scan_with_a_pattern_enters_moved_files_under_their_new_paths() {
    let mut c = Catalog::new();
    let pattern = Some("{artist}/{title}.{ext}");
    let moved = vec![true, false, false, false];
    let pass = index_library(&mut c, &Vec::new(), &found(), "/music", pattern, false, &moved);
    assert_eq!(
        c.track_paths(),
        vec![
            "/music/Muse/Hysteria.mp3".to_string(),
            "/music/in/two.flac".to_string(),
            "/music/in/three.wav".to_string()
        ]
    );
    assert_eq!(pass.added, c.track_paths());
}

#[test]
fn scan_treats_a_file_of_which_nothing_is_said_as_not_moved() {
    let mut c = Catalog::new();
    let pattern = Some("{artist}/{title}.{ext}");
    index_library(&mut c, &Vec::new(), &found(), "/music", pattern, false, &vec![true]);
    assert_eq!(c.track_paths()[0], "/music/Muse/Hysteria.mp3");
    assert_eq!(c.track_paths()[1], "/music/in/two.flac");
}

#[test]
fn dry_run_enters_the_files_where_they_are() {
    let mut c = Catalog::new();
    let pattern = Some("{artist}/{title}.{ext}");
    let pass = index_library(&mut c, &Vec::new(), &found(), "/music", pattern, true, &vec![true; 4]);
    let own = vec![
        "/music/in/one.mp3".to_string(),
        "/music/in/two.flac".to_string(),
        "/music/in/three.wav".to_string(),
    ];
    assert_eq!(c.track_paths(), own);
    assert_eq!(pass.added, own);
}

#[test]
fn a_second_dry_run_changes_nothing() {
    let mut c = Catalog::new();
    let pattern = Some("{artist}/{title}.{ext}");
    index_library(&mut c, &Vec::new(), &found(), "/music", pattern, true, &Vec::new());
    let before = c.tracks().clone();
    let pass = index_library(&mut c, &Vec::new(), &found(), "/music", pattern, true, &Vec::new());
    assert!(pass.added.is_empty());
    assert_eq!(c.tracks(), &before);
}

#[test]
fn a_pattern_that_starts_with_an_empty_tag_gives_a_path_at_the_root() {
    let file = scanned("/music/in/three.wav", "", "", "");
    assert_eq!(
        plan_file(&file, "/music", Some("{artist}/{title}.{ext}"), false),
        Step::Move("/.wav".to_string())
    );
    assert_eq!(
        plan_file(&file, "/music", Some("unknown/{artist}{title}.{ext}"), false),
        Step::Move("/music/unknown/.wav".to_string())
    );
}

#[test]
fn scan_leaves_the_playlists_alone() {
    let mut c = Catalog::new();
    assert!(c.upsert_playlist("mix", "/music/mix.m3u"));
    index_library(&mut c, &vec!["/music/mix.m3u".to_string()], &found(), "/music", None, false, &Vec::new());
    assert_eq!(c.query_playlist_paths(), vec!["/music/mix.m3u".to_string()]);
}

#[test]
fn a_file_is_where_the_pattern_wants_it_whatever_the_spelling() {
    let file = scanned("/music/Muse/Hysteria.mp3", "Muse", "", "Hysteria");
    assert_eq!(
        plan_file(&file, "/music", Some("{artist}/{album}/{title}.{ext}"), false),
        Step::Index
    );
    assert_eq!(
        plan_file(&file, "/music//", Some("./{artist}/{title}.{ext}"), false),
        Step::Index
    );
}
