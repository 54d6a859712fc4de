//! The tracks of the catalog as lines to show and as rows to export.

use crate::catalog::{track_views, Catalog, TrackView};
use crate::text::string_views;
use vstd::prelude::*;

verus! {

/// The line that shows a track: title, artist and album, with a hyphen
/// between spaces after the first and after the second.
pub open spec fn track_line(t: TrackView) -> Seq<char> {
    t.title + " - "@ + t.artist + " - "@ + t.album
}

/// The lines that show the tracks, in order.
pub open spec fn track_lines(tracks: Seq<TrackView>) -> Seq<Seq<char>> {
    tracks.map_values(|t: TrackView| track_line(t))
}

/// The row of a track in an export: artist, album and title.
pub open spec fn track_row(t: TrackView) -> Seq<Seq<char>> {
    seq![t.artist, t.album, t.title]
}

/// The first row of an export, which names the columns.
pub open spec fn header_row() -> Seq<Seq<char>> {
    seq!["Artist"@, "Album"@, "Title"@]
}

/// The rows of the tracks, in order.
pub open spec fn track_rows(tracks: Seq<TrackView>) -> Seq<Seq<Seq<char>>> {
    tracks.map_values(|t: TrackView| track_row(t))
}

/// The rows of an export: the header, then one row for each track, in order.
pub open spec fn export_rows(tracks: Seq<TrackView>) -> Seq<Seq<Seq<char>>> {
    seq![header_row()] + track_rows(tracks)
}

/// The views of rows of strings.
pub open spec fn row_views(rows: Seq<Vec<String>>) -> Seq<Seq<Seq<char>>> {
    rows.map_values(|r: Vec<String>| string_views(r@))
}

/// The line above the lines of `list_tracks`.
pub fn listing_header() -> (h: &'static str)
    ensures
        h@ == "Track - Artist - Album"@,
{
    "Track - Artist - Album"
}

/// One line for each track of the catalog, in order: title, artist, album.
pub fn list_tracks(catalog: &Catalog) -> (shown: Vec<String>)
    ensures
        string_views(shown@) == track_lines(catalog@.tracks),
{
    let tracks = catalog.tracks();
    let ghost all = track_views(tracks@);
    let mut shown: Vec<String> = Vec::new();
    let mut i: usize = 0;
    while i < tracks.len()
        invariant
            i <= tracks.len(),
            all == track_views(tracks@),
            string_views(shown@) == track_lines(all).take(i as int),
        decreases tracks.len() - i,
    {
        let ghost shown_before = shown@;
        let t = &tracks[i];
        let mut line = t.title.clone();
        line.append(" - ");
        line.append(t.artist.as_str());
        line.append(" - ");
        line.append(t.album.as_str());
        assert(all[i as int] == tracks@[i as int]@);
        assert(line@ == track_line(all[i as int]));
        shown.push(line);
        assert(string_views(shown@) =~= string_views(shown_before).push(track_line(all[i as int])));
        assert(track_lines(all).take(i + 1) =~= track_lines(all).take(i as int).push(
            track_line(all[i as int]),
        ));
        i += 1;
    }
    assert(track_lines(all).take(all.len() as int) =~= track_lines(all));
    shown
}

/// The rows of an export of the catalog: the header, then artist, album and
/// title of each track, in order.
pub fn export_tracks(catalog: &Catalog) -> (rows: Vec<Vec<String>>)
    ensures
        row_views(rows@) == export_rows(catalog@.tracks),
{
    let tracks = catalog.tracks();
    let ghost all = track_views(tracks@);
    let mut rows: Vec<Vec<String>> = Vec::new();
    let mut header: Vec<String> = Vec::new();
    header.push("Artist".to_owned());
    header.push("Album".to_owned());
    header.push("Title".to_owned());
    assert(string_views(header@) =~= header_row());
    rows.push(header);
    assert(row_views(rows@) =~= seq![header_row()]);
    let mut i: usize = 0;
    while i < tracks.len()
        invariant
            i <= tracks.len(),
            all == track_views(tracks@),
            row_views(rows@) == seq![header_row()] + track_rows(all).take(i as int),
        decreases tracks.len() - i,
    {
        let ghost rows_before = rows@;
        let t = &tracks[i];
        let mut row: Vec<String> = Vec::new();
        row.push(t.artist.clone());
        row.push(t.album.clone());
        row.push(t.title.clone());
        assert(all[i as int] == tracks@[i as int]@);
        assert(string_views(row@) =~= track_row(all[i as int]));
        rows.push(row);
        assert(row_views(rows@) =~= row_views(rows_before).push(track_row(all[i as int])));
        assert(track_rows(all).take(i + 1) =~= track_rows(all).take(i as int).push(
            track_row(all[i as int]),
        ));
        assert(row_views(rows@) =~= seq![header_row()] + track_rows(all).take(i + 1));
        i += 1;
    }
    assert(track_rows(all).take(all.len() as int) =~= track_rows(all));
    rows
}

} // verus!
