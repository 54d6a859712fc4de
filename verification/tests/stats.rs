use apollo_music::catalog::Catalog;
use apollo_music::listing::{export_tracks, list_tracks, listing_header};
use apollo_music::stats::{
    duration_seconds, library_totals, record_duration, start_stats_pass, time_unit, TimeUnit,
    Totals, DAY, HOUR, MINUTE, MONTH, WEEK,
};

fn shelf() -> Catalog {
    let mut c = Catalog::new();
    assert!(c.upsert_track("/m/1.mp3", "Muse", "Absolution", "", "Hysteria", 227));
    assert!(c.upsert_track("/m/2.mp3", "Muse", "Showbiz", "", "Muscle Museum", 263));
    assert!(c.upsert_track("/m/3.mp3", "Prince", "Purple Rain", "", "Purple Rain", 0));
    assert!(c.upsert_track("/m/4.mp3", "", "", "", "", 10));
    assert!(c.upsert_track("/m/5.mp3", "", "Absolution", "", "", 0));
    c
}

fn whole(numer: u32, denom: u32, ticks: u64) -> u64 {
    ((ticks as u128 * numer as u128) / denom as u128) as u64
}

#[test]
fn totals_count_tracks_artists_albums_and_seconds() {
    assert_eq!(
        library_totals(&shelf()),
        Totals { tracks: 5, artists: 3, albums: 4, seconds: 500 }
    );
}

#[test]
fn totals_of_an_empty_catalog_are_zero() {
    assert_eq!(
        library_totals(&Catalog::new()),
        Totals { tracks: 0, artists: 0, albums: 0, seconds: 0 }
    );
}

#[test]
fn totals_do_not_overflow() {
    let mut c = Catalog::new();
    assert!(c.upsert_track("/m/1.mp3", "a", "b", "", "c", u64::MAX));
    assert!(c.upsert_track("/m/2.mp3", "a", "b", "", "c", u64::MAX));
    assert_eq!(library_totals(&c).seconds, 2 * (u64::MAX as u128));
}

#[test]
fn the_unit_is_the_greatest_of_which_there_is_more_than_one() {
    assert_eq!(time_unit(0), (TimeUnit::Seconds, 1));
    assert_eq!(time_unit(60), (TimeUnit::Seconds, 1));
    assert_eq!(time_unit(61), (TimeUnit::Minutes, 60));
    assert_eq!(time_unit(3_600), (TimeUnit::Minutes, 60));
    assert_eq!(time_unit(3_601), (TimeUnit::Hours, 3_600));
    assert_eq!(time_unit(86_400), (TimeUnit::Hours, 3_600));
    assert_eq!(time_unit(86_401), (TimeUnit::Days, 86_400));
    assert_eq!(time_unit(604_800), (TimeUnit::Days, 86_400));
    assert_eq!(time_unit(604_801), (TimeUnit::Weeks, 604_800));
    assert_eq!(time_unit(2_592_000), (TimeUnit::Weeks, 604_800));
    assert_eq!(time_unit(2_592_001), (TimeUnit::Months, 2_592_000));
    assert_eq!(time_unit(u128::MAX), (TimeUnit::Months, 2_592_000));
    assert_eq!((MINUTE, HOUR, DAY, WEEK, MONTH), (60, 3_600, 86_400, 604_800, 2_592_000));
}

#[test]
fn duration_is_the_whole_seconds_of_the_ticks() {
    assert_eq!(duration_seconds(Some((1, 44_100)), Some(441_000)), 10);
    assert_eq!(duration_seconds(Some((1, 44_100)), Some(441_000 + 44_099)), 10);
    assert_eq!(duration_seconds(Some((1, 1_000)), Some(1_999)), 1);
    assert_eq!(duration_seconds(Some((1, 1_000)), Some(999)), 0);
    assert_eq!(duration_seconds(Some((3, 2)), Some(5)), 7);
    assert_eq!(duration_seconds(Some((1, 48_000)), Some(0)), 0);
}

#[test]
fn duration_is_exact_for_great_numbers_of_ticks() {
    let cases: [(u32, u32, u64); 6] = [
        (1, 7, (1 << 52) - 1),
        (1, 3, 1 << 60),
        (1, 7, 1 << 52),
        (3, 44_100, (1 << 50) + 12_345),
        (u32::MAX, u32::MAX, 1 << 62),
        (1, u32::MAX, u64::MAX),
    ];
    for (numer, denom, ticks) in cases {
        assert_eq!(
            duration_seconds(Some((numer, denom)), Some(ticks)),
            whole(numer, denom, ticks),
            "{} {} {}",
            numer,
            denom,
            ticks
        );
    }
}

#[test]
fn duration_that_cannot_be_told_is_zero() {
    assert_eq!(duration_seconds(None, Some(441_000)), 0);
    assert_eq!(duration_seconds(Some((1, 44_100)), None), 0);
    assert_eq!(duration_seconds(None, None), 0);
    assert_eq!(duration_seconds(Some((0, 44_100)), Some(441_000)), 0);
    assert_eq!(duration_seconds(Some((1, 0)), Some(441_000)), 0);
}

#[test]
fn duration_beyond_a_signed_number_is_zero() {
    assert_eq!(duration_seconds(Some((2, 1)), Some((1 << 62) - 1)), (1 << 63) - 2);
    assert_eq!(duration_seconds(Some((2, 1)), Some(1 << 62)), 0);
    assert_eq!(duration_seconds(Some((1, 1)), Some(u64::MAX)), 0);
    assert_eq!(duration_seconds(Some((u32::MAX, 1)), Some(u64::MAX)), 0);
    // the seconds wrap: 2^64 + 8 is held as 8
    assert_eq!(duration_seconds(Some((4, 1)), Some((1 << 62) + 2)), 8);
}

#[test]
fn a_duration_that_was_found_is_recorded() {
    let mut c = shelf();
    assert!(record_duration(&mut c, "/m/3.mp3", 521));
    assert_eq!(c.tracks()[2].duration, 521);
    assert_eq!(library_totals(&c).seconds, 1_021);
}

#[test]
fn a_duration_of_zero_is_not_recorded() {
    let mut c = shelf();
    assert!(!record_duration(&mut c, "/m/1.mp3", 0));
    assert_eq!(c.tracks()[0].duration, 227);
    assert!(!record_duration(&mut c, "/m/3.mp3", 0));
    assert_eq!(c.tracks()[2].duration, 0);
    assert!(!record_duration(&mut c, "/m/unknown.mp3", 7));
    assert_eq!(library_totals(&c).seconds, 500);
}

#[test]
fn tracks_are_listed_as_title_artist_album() {
    assert_eq!(listing_header(), "Track - Artist - Album");
    assert_eq!(
        list_tracks(&shelf()),
        vec![
            "Hysteria - Muse - Absolution".to_string(),
            "Muscle Museum - Muse - Showbiz".to_string(),
            "Purple Rain - Prince - Purple Rain".to_string(),
            " -  - ".to_string(),
            " -  - Absolution".to_string(),
        ]
    );
    assert!(list_tracks(&Catalog::new()).is_empty());
}

#[test]
fn tracks_are_exported_as_artist_album_title_below_a_header() {
    let rows = export_tracks(&shelf());
    assert_eq!(rows.len(), 6);
    assert_eq!(rows[0], vec!["Artist".to_string(), "Album".to_string(), "Title".to_string()]);
    assert_eq!(rows[1], vec!["Muse".to_string(), "Absolution".to_string(), "Hysteria".to_string()]);
    assert_eq!(rows[3], vec!["Prince".to_string(), "Purple Rain".to_string(), "Purple Rain".to_string()]);
    assert_eq!(rows[4], vec![String::new(), String::new(), String::new()]);
    assert_eq!(
        export_tracks(&Catalog::new()),
        vec![vec!["Artist".to_string(), "Album".to_string(), "Title".to_string()]]
    );
}

#[test]
fn a_known_duration_is_kept() {
    let mut c = shelf();
    let before = c.tracks().clone();
    assert!(!record_duration(&mut c, "/m/1.mp3", 999));
    assert_eq!(c.tracks(), &before);
}

#[test]
fn a_stats_pass_starts_by_taking_out_the_missing_tracks() {
    let mut c = shelf();
    let (removed, unknown) = start_stats_pass(&mut c, &vec!["/m/3.mp3".to_string(), "/m/1.mp3".to_string()]);
    assert_eq!(removed, vec!["/m/1.mp3".to_string(), "/m/3.mp3".to_string()]);
    assert_eq!(c.track_paths(), vec!["/m/2.mp3".to_string(), "/m/4.mp3".to_string(), "/m/5.mp3".to_string()]);
    let paths: Vec<&str> = unknown.iter().map(|t| t.path.as_str()).collect();
    assert_eq!(paths, vec!["/m/5.mp3"]);
    assert_eq!(
        library_totals(&c),
        Totals { tracks: 3, artists: 2, albums: 3, seconds: 273 }
    );
}

#[test]
fn a_stats_pass_with_nothing_missing_lists_the_tracks_to_probe() {
    let mut c = shelf();
    let before = c.tracks().clone();
    let (removed, unknown) = start_stats_pass(&mut c, &Vec::new());
    assert!(removed.is_empty());
    assert_eq!(c.tracks(), &before);
    let paths: Vec<&str> = unknown.iter().map(|t| t.path.as_str()).collect();
    assert_eq!(paths, vec!["/m/3.mp3", "/m/5.mp3"]);
}
