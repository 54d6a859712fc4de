//! The scan of the music directory: which files are tracks, where a naming
//! pattern wants a file to be, and what the catalog holds after the scan.
//!
//! The scan itself looks at no file. It is given the files that were found,
//! with their tags, and is told which moves succeeded.

use crate::catalog::{
    distinct_paths, has_path, not_among, paths_of, prune_of_one_takes_that_track, upserted,
    with_paths, without_paths, Catalog, TrackView,
};
use crate::paths::{extension, extension_of, is_same_path, join, joined_path, same_path};
use crate::seqs::{filter_all, filter_source};
use crate::text::{chars_of, replace, replace_all, same, string_of, string_view, string_views};
use vstd::prelude::*;

verus! {

/// The tags of a file. A tag that the file does not have is empty.
#[derive(Debug, Clone, PartialEq, Eq)]
pub struct Tags {
    pub artist: String,
    pub album: String,
    pub album_artist: String,
    pub title: String,
}

/// What `Tags` hold, as mathematical values.
pub struct TagsView {
    pub artist: Seq<char>,
    pub album: Seq<char>,
    pub album_artist: Seq<char>,
    pub title: Seq<char>,
}

impl View for Tags {
    type V = TagsView;

    open spec fn view(&self) -> TagsView {
        TagsView {
            artist: self.artist@,
            album: self.album@,
            album_artist: self.album_artist@,
            title: self.title@,
        }
    }
}

/// The text of a tag that may be absent.
pub open spec fn or_empty(tag: Option<Seq<char>>) -> Seq<char> {
    match tag {
        Some(t) => t,
        None => Seq::empty(),
    }
}

/// A file that the scan found, with its tags.
#[derive(Debug, Clone, PartialEq, Eq)]
pub struct ScannedFile {
    pub path: String,
    pub tags: Tags,
}

/// What a `ScannedFile` holds, as mathematical values.
pub struct FileView {
    pub path: Seq<char>,
    pub tags: TagsView,
}

impl View for ScannedFile {
    type V = FileView;

    open spec fn view(&self) -> FileView {
        FileView { path: self.path@, tags: self.tags@ }
    }
}

/// The views of a sequence of scanned files.
pub open spec fn file_views(v: Seq<ScannedFile>) -> Seq<FileView> {
    v.map_values(|f: ScannedFile| f@)
}

/// The path that a naming pattern gives: the pattern with `{artist}` replaced
/// by the artist, then `{albumartist}` by the artist too, then `{album}` by
/// the album, `{title}` by the title and `{ext}` by the extension. Each
/// replacement works on the result of the one before.
pub open spec fn pattern_path(
    pattern: Seq<char>,
    artist: Seq<char>,
    album: Seq<char>,
    title: Seq<char>,
    ext: Seq<char>,
) -> Seq<char> {
    let a = replace_all(pattern, "{artist}"@, artist);
    let b = replace_all(a, "{albumartist}"@, artist);
    let c = replace_all(b, "{album}"@, album);
    let d = replace_all(c, "{title}"@, title);
    replace_all(d, "{ext}"@, ext)
}

/// The file at `p` is a track: its extension is `mp3`, `flac` or `wav`.
pub open spec fn is_audio_path(p: Seq<char>) -> bool {
    ||| extension(p) == Some("mp3"@)
    ||| extension(p) == Some("flac"@)
    ||| extension(p) == Some("wav"@)
}

/// Where the pattern wants the file to be, below the music directory.
pub open spec fn destination(file: FileView, music_dir: Seq<char>, pattern: Seq<char>) -> Seq<char> {
    join(
        music_dir,
        pattern_path(
            pattern,
            file.tags.artist,
            file.tags.album,
            file.tags.title,
            or_empty(extension(file.path)),
        ),
    )
}

/// What the scan does with a file.
#[derive(Debug, Clone, PartialEq, Eq)]
pub enum Step {
    /// The file is no track and is passed over.
    Ignore,
    /// The file is entered under its path.
    Index,
    /// The file would be moved to this path. Nothing is moved, and the file
    /// is entered under its own path.
    Report(String),
    /// The file is to be moved to this path, and is entered under it if the
    /// move succeeds, and under its own path if not.
    Move(String),
}

/// A `Step` as a mathematical value.
pub enum StepView {
    Ignore,
    Index,
    Report(Seq<char>),
    Move(Seq<char>),
}

impl View for Step {
    type V = StepView;

    open spec fn view(&self) -> StepView {
        match self {
            Step::Ignore => StepView::Ignore,
            Step::Index => StepView::Index,
            Step::Report(p) => StepView::Report(p@),
            Step::Move(p) => StepView::Move(p@),
        }
    }
}

/// The step for a file: a file that is no track is passed over; a track stays
/// where it is when no pattern is set or when it is where the pattern wants
/// it, however the two paths are spelled; otherwise the move is reported in a
/// dry run, and asked for in any other.
pub open spec fn step_for(
    file: FileView,
    music_dir: Seq<char>,
    pattern: Option<Seq<char>>,
    dry_run: bool,
) -> StepView {
    if !is_audio_path(file.path) {
        StepView::Ignore
    } else {
        match pattern {
            None => StepView::Index,
            Some(p) => {
                let to = destination(file, music_dir, p);
                if same_path(to, file.path) {
                    StepView::Index
                } else if dry_run {
                    StepView::Report(to)
                } else {
                    StepView::Move(to)
                }
            },
        }
    }
}

/// The path under which the file is entered after its step, given whether
/// the move that the step asked for has succeeded: the new path after a move
/// that succeeded, and the file's own path in every other case, a dry run
/// among them.
pub open spec fn entered_path(file: FileView, step: StepView, moved: bool) -> Option<Seq<char>> {
    match step {
        StepView::Ignore => None,
        StepView::Index => Some(file.path),
        StepView::Report(_) => Some(file.path),
        StepView::Move(to) => if moved {
            Some(to)
        } else {
            Some(file.path)
        },
    }
}

/// Whether the move of the file at index `i` has succeeded; a file of which
/// nothing is said has not been moved.
pub open spec fn moved_at(moved: Seq<bool>, i: int) -> bool {
    0 <= i < moved.len() && moved[i]
}

/// The track that is entered for a file: its tags under the given path, the
/// duration not known.
pub open spec fn track_for(path: Seq<char>, tags: TagsView) -> TrackView {
    TrackView {
        path: path,
        artist: tags.artist,
        album: tags.album,
        album_artist: tags.album_artist,
        title: tags.title,
        duration: 0,
    }
}

/// The path under which the file at index `i` is entered, if it is a track.
pub open spec fn entry_at(
    files: Seq<FileView>,
    music_dir: Seq<char>,
    pattern: Option<Seq<char>>,
    dry_run: bool,
    moved: Seq<bool>,
    i: int,
) -> Option<Seq<char>> {
    entered_path(files[i], step_for(files[i], music_dir, pattern, dry_run), moved_at(moved, i))
}

/// The tracks after the first `n` files were entered.
pub open spec fn indexed_upto(
    tracks: Seq<TrackView>,
    files: Seq<FileView>,
    music_dir: Seq<char>,
    pattern: Option<Seq<char>>,
    dry_run: bool,
    moved: Seq<bool>,
    n: int,
) -> Seq<TrackView>
    decreases n,
{
    if n <= 0 || n > files.len() {
        tracks
    } else {
        let rest = indexed_upto(tracks, files, music_dir, pattern, dry_run, moved, n - 1);
        match entry_at(files, music_dir, pattern, dry_run, moved, n - 1) {
            None => rest,
            Some(p) => upserted(rest, track_for(p, files[n - 1].tags)),
        }
    }
}

/// The paths under which the first `n` files were entered as new tracks.
pub open spec fn added_upto(
    tracks: Seq<TrackView>,
    files: Seq<FileView>,
    music_dir: Seq<char>,
    pattern: Option<Seq<char>>,
    dry_run: bool,
    moved: Seq<bool>,
    n: int,
) -> Seq<Seq<char>>
    decreases n,
{
    if n <= 0 || n > files.len() {
        Seq::empty()
    } else {
        let rest = added_upto(tracks, files, music_dir, pattern, dry_run, moved, n - 1);
        match entry_at(files, music_dir, pattern, dry_run, moved, n - 1) {
            None => rest,
            Some(p) => if has_path(
                indexed_upto(tracks, files, music_dir, pattern, dry_run, moved, n - 1),
                p,
            ) {
                rest
            } else {
                rest.push(p)
            },
        }
    }
}

/// The tracks after a scan: those whose paths are among `missing` are gone,
/// and every file that is a track is entered, in the order of `files`, unless
/// a track has its path already.
pub open spec fn scanned(
    tracks: Seq<TrackView>,
    missing: Seq<Seq<char>>,
    files: Seq<FileView>,
    music_dir: Seq<char>,
    pattern: Option<Seq<char>>,
    dry_run: bool,
    moved: Seq<bool>,
) -> Seq<TrackView> {
    indexed_upto(
        without_paths(tracks, missing),
        files,
        music_dir,
        pattern,
        dry_run,
        moved,
        files.len() as int,
    )
}

/// What a scan changed in the catalog.
#[derive(Debug, Clone, PartialEq, Eq)]
pub struct ScanPass {
    /// The paths of the tracks that were taken out, their files being gone.
    pub removed: Vec<String>,
    /// The paths of the tracks that were entered.
    pub added: Vec<String>,
}

impl Tags {
    /// Tags of which every one is empty: those of a file whose tags cannot be
    /// read.
    pub fn empty() -> (t: Tags)
        ensures
            t@.artist.len() == 0,
            t@.album.len() == 0,
            t@.album_artist.len() == 0,
            t@.title.len() == 0,
    {
        Tags {
            artist: String::new(),
            album: String::new(),
            album_artist: String::new(),
            title: String::new(),
        }
    }

    /// The tags as read from a file, with an empty text for each tag that the
    /// file does not have.
    pub fn from_fields(
        artist: Option<String>,
        album: Option<String>,
        album_artist: Option<String>,
        title: Option<String>,
    ) -> (t: Tags)
        ensures
            t@.artist == or_empty(string_view(artist)),
            t@.album == or_empty(string_view(album)),
            t@.album_artist == or_empty(string_view(album_artist)),
            t@.title == or_empty(string_view(title)),
    {
        Tags {
            artist: text_or_empty(artist),
            album: text_or_empty(album),
            album_artist: text_or_empty(album_artist),
            title: text_or_empty(title),
        }
    }
}

/// The text of a tag, empty where the tag is absent.
fn text_or_empty(tag: Option<String>) -> (t: String)
    ensures
        t@ == or_empty(string_view(tag)),
{
    match tag {
        Some(t) => t,
        None => String::new(),
    }
}

/// The path that a naming pattern gives for these values.
pub fn generate_path_from_pattern(pattern: &str, artist: &str, album: &str, title: &str, ext: &str) -> (path:
    String)
    ensures
        path@ == pattern_path(pattern@, artist@, album@, title@, ext@),
{
    let artist = chars_of(artist);
    let a = replace(&chars_of(pattern), &chars_of("{artist}"), &artist);
    let b = replace(&a, &chars_of("{albumartist}"), &artist);
    let c = replace(&b, &chars_of("{album}"), &chars_of(album));
    let d = replace(&c, &chars_of("{title}"), &chars_of(title));
    let e = replace(&d, &chars_of("{ext}"), &chars_of(ext));
    string_of(&e)
}

/// Whether the file at `path` is a track.
pub fn is_audio_file(path: &str) -> (r: bool)
    ensures
        r == is_audio_path(path@),
{
    match extension_of(&chars_of(path)) {
        None => false,
        Some(e) => same(&e, &chars_of("mp3")) || same(&e, &chars_of("flac")) || same(
            &e,
            &chars_of("wav"),
        ),
    }
}

/// The step for a file that the scan found.
pub fn plan_file(file: &ScannedFile, music_dir: &str, pattern: Option<&str>, dry_run: bool) -> (step:
    Step)
    ensures
        step@ == step_for(file@, music_dir@, pattern_view(pattern), dry_run),
{
    if !is_audio_file(file.path.as_str()) {
        return Step::Ignore;
    }
    match pattern {
        None => Step::Index,
        Some(p) => {
            let ext: String = match extension_of(&chars_of(file.path.as_str())) {
                Some(e) => string_of(&e),
                None => String::new(),
            };
            let rel = generate_path_from_pattern(
                p,
                file.tags.artist.as_str(),
                file.tags.album.as_str(),
                file.tags.title.as_str(),
                ext.as_str(),
            );
            let to = joined_path(&chars_of(music_dir), &chars_of(rel.as_str()));
            let stays = is_same_path(&to, &chars_of(file.path.as_str()));
            let to = string_of(&to);
            if stays {
                Step::Index
            } else if dry_run {
                Step::Report(to)
            } else {
                Step::Move(to)
            }
        },
    }
}

/// The path under which a file is entered after its step, given whether the
/// move that the step asked for has succeeded.
pub fn entry_path(file: &ScannedFile, step: &Step, moved: bool) -> (path: Option<String>)
    ensures
        string_view(path) == entered_path(file@, step@, moved),
{
    match step {
        Step::Ignore => None,
        Step::Index => Some(file.path.clone()),
        Step::Report(_) => Some(file.path.clone()),
        Step::Move(to) => if moved {
            Some(to.clone())
        } else {
            Some(file.path.clone())
        },
    }
}

/// The pattern as a mathematical value.
pub open spec fn pattern_view(pattern: Option<&str>) -> Option<Seq<char>> {
    match pattern {
        Some(p) => Some(p@),
        None => None,
    }
}

/// One scan. The tracks whose paths are among `missing` leave the catalog.
/// Then every file of `files` that is a track is entered, in order, with its
/// tags and no duration, under the path that `entered_path` gives; a file
/// whose path the catalog holds already changes nothing. `moved` says for
/// each file whether its move has succeeded. The playlists stay as they are.
pub fn index_library(
    catalog: &mut Catalog,
    missing: &Vec<String>,
    files: &Vec<ScannedFile>,
    music_dir: &str,
    pattern: Option<&str>,
    dry_run: bool,
    moved: &Vec<bool>,
) -> (pass: ScanPass)
    requires
        old(catalog)@.wf(),
    ensures
        final(catalog)@.wf(),
        final(catalog)@.playlists == old(catalog)@.playlists,
        final(catalog)@.tracks == scanned(
            old(catalog)@.tracks,
            string_views(missing@),
            file_views(files@),
            music_dir@,
            pattern_view(pattern),
            dry_run,
            moved@,
        ),
        string_views(pass.removed@) == paths_of(
            with_paths(old(catalog)@.tracks, string_views(missing@)),
        ),
        string_views(pass.added@) == added_upto(
            without_paths(old(catalog)@.tracks, string_views(missing@)),
            file_views(files@),
            music_dir@,
            pattern_view(pattern),
            dry_run,
            moved@,
            files@.len() as int,
        ),
{
    let removed = catalog.prune_missing_tracks(missing);
    let ghost start = catalog@.tracks;
    let ghost fv = file_views(files@);
    let ghost pv = pattern_view(pattern);
    let mut added: Vec<String> = Vec::new();
    let mut n: usize = 0;
    assert(string_views(added@) =~= added_upto(start, fv, music_dir@, pv, dry_run, moved@, 0));
    while n < files.len()
        invariant
            n <= files.len(),
            fv == file_views(files@),
            pv == pattern_view(pattern),
            catalog@.wf(),
            catalog@.playlists == old(catalog)@.playlists,
            catalog@.tracks == indexed_upto(start, fv, music_dir@, pv, dry_run, moved@, n as int),
            string_views(added@) == added_upto(start, fv, music_dir@, pv, dry_run, moved@, n as int),
        decreases files.len() - n,
    {
        let ghost added_before = added@;
        let file = &files[n];
        assert(fv[n as int] == file@);
        let step = plan_file(file, music_dir, pattern, dry_run);
        let was_moved = n < moved.len() && moved[n];
        match entry_path(file, &step, was_moved) {
            None => {},
            Some(p) => {
                let inserted = catalog.upsert_track(
                    p.as_str(),
                    file.tags.artist.as_str(),
                    file.tags.album.as_str(),
                    file.tags.album_artist.as_str(),
                    file.tags.title.as_str(),
                    0,
                );
                if inserted {
                    added.push(p);
                    assert(string_views(added@) =~= string_views(added_before).push(p@));
                }
            },
        }
        n += 1;
    }
    ScanPass { removed, added }
}

/// `missing` tells of each track whether its file is gone: it holds the path
/// of a track if and only if no file is at that path.
pub open spec fn tells_missing(
    tracks: Seq<TrackView>,
    missing: Seq<Seq<char>>,
    on_disk: Set<Seq<char>>,
) -> bool {
    forall|i: int|
        0 <= i < tracks.len() ==> (missing.contains((#[trigger] tracks[i]).path) <==> !on_disk.contains(
            tracks[i].path,
        ))
}

/// Every file of `files` that is a track is on the disk.
pub open spec fn found_on(files: Seq<FileView>, on_disk: Set<Seq<char>>) -> bool {
    forall|i: int|
        0 <= i < files.len() && is_audio_path((#[trigger] files[i]).path) ==> on_disk.contains(
            files[i].path,
        )
}

/// Every track is at a path that is on the disk.
pub open spec fn all_on(tracks: Seq<TrackView>, on_disk: Set<Seq<char>>) -> bool {
    forall|i: int| 0 <= i < tracks.len() ==> on_disk.contains((#[trigger] tracks[i]).path)
}

/// Tracks that are on the disk are still on it after files that are on it
/// were entered where they are.
proof fn entered_are_on_disk(
    tracks: Seq<TrackView>,
    files: Seq<FileView>,
    music_dir: Seq<char>,
    pattern: Option<Seq<char>>,
    dry_run: bool,
    moved: Seq<bool>,
    on_disk: Set<Seq<char>>,
    n: int,
)
    requires
        pattern is None || dry_run,
        all_on(tracks, on_disk),
        found_on(files, on_disk),
        0 <= n <= files.len(),
    ensures
        all_on(indexed_upto(tracks, files, music_dir, pattern, dry_run, moved, n), on_disk),
    decreases n,
{
    if n > 0 {
        entered_are_on_disk(tracks, files, music_dir, pattern, dry_run, moved, on_disk, n - 1);
        let rest = indexed_upto(tracks, files, music_dir, pattern, dry_run, moved, n - 1);
        let now = indexed_upto(tracks, files, music_dir, pattern, dry_run, moved, n);
        assert forall|i: int| 0 <= i < now.len() implies on_disk.contains((#[trigger] now[i]).path) by {
            if i < rest.len() {
                assert(now[i] == rest[i]);
            } else {
                assert(is_audio_path(files[n - 1].path));
            }
        }
    }
}

/// After the first `n` files were entered where they are, the catalog holds
/// the path of each of them that is a track.
proof fn entered_are_held(
    tracks: Seq<TrackView>,
    files: Seq<FileView>,
    music_dir: Seq<char>,
    pattern: Option<Seq<char>>,
    dry_run: bool,
    moved: Seq<bool>,
    n: int,
    k: int,
)
    requires
        pattern is None || dry_run,
        0 <= k < n <= files.len(),
        is_audio_path(files[k].path),
    ensures
        has_path(indexed_upto(tracks, files, music_dir, pattern, dry_run, moved, n), files[k].path),
    decreases n,
{
    let rest = indexed_upto(tracks, files, music_dir, pattern, dry_run, moved, n - 1);
    let now = indexed_upto(tracks, files, music_dir, pattern, dry_run, moved, n);
    if k < n - 1 {
        entered_are_held(tracks, files, music_dir, pattern, dry_run, moved, n - 1, k);
        let j = choose|j: int| 0 <= j < rest.len() && (#[trigger] rest[j]).path == files[k].path;
        assert(now[j] == rest[j]);
    } else {
        if has_path(rest, files[k].path) {
        } else {
            assert(now[rest.len() as int].path == files[k].path);
        }
    }
}

/// Entering files where they are changes nothing where the catalog holds the
/// path of each of them that is a track.
proof fn entering_held_changes_nothing(
    tracks: Seq<TrackView>,
    files: Seq<FileView>,
    music_dir: Seq<char>,
    pattern: Option<Seq<char>>,
    dry_run: bool,
    moved: Seq<bool>,
    n: int,
)
    requires
        pattern is None || dry_run,
        0 <= n <= files.len(),
        forall|k: int| 0 <= k < n && is_audio_path((#[trigger] files[k]).path) ==> has_path(tracks, files[k].path),
    ensures
        indexed_upto(tracks, files, music_dir, pattern, dry_run, moved, n) == tracks,
    decreases n,
{
    if n > 0 {
        entering_held_changes_nothing(tracks, files, music_dir, pattern, dry_run, moved, n - 1);
        if is_audio_path(files[n - 1].path) {
            assert(has_path(tracks, files[n - 1].path));
        }
    }
}

/// A second scan of a directory that has not changed leaves the catalog as
/// the first scan left it, where no pattern is set or the scans are dry runs,
/// so that no file is moved. Both scans are told truly which tracks have lost
/// their files, and every track among the files that were found is on the
/// disk.
pub proof fn second_scan_changes_nothing(
    tracks: Seq<TrackView>,
    files: Seq<FileView>,
    music_dir: Seq<char>,
    pattern: Option<Seq<char>>,
    dry_run: bool,
    on_disk: Set<Seq<char>>,
    missing_first: Seq<Seq<char>>,
    moved_first: Seq<bool>,
    missing_second: Seq<Seq<char>>,
    moved_second: Seq<bool>,
)
    requires
        pattern is None || dry_run,
        found_on(files, on_disk),
        tells_missing(tracks, missing_first, on_disk),
        tells_missing(
            scanned(tracks, missing_first, files, music_dir, pattern, dry_run, moved_first),
            missing_second,
            on_disk,
        ),
    ensures
        scanned(
            scanned(tracks, missing_first, files, music_dir, pattern, dry_run, moved_first),
            missing_second,
            files,
            music_dir,
            pattern,
            dry_run,
            moved_second,
        ) == scanned(tracks, missing_first, files, music_dir, pattern, dry_run, moved_first),
{
    let base = without_paths(tracks, missing_first);
    let n = files.len() as int;
    let after = indexed_upto(base, files, music_dir, pattern, dry_run, moved_first, n);
    assert(all_on(base, on_disk)) by {
        assert forall|i: int| 0 <= i < base.len() implies on_disk.contains((#[trigger] base[i]).path) by {
            let j = filter_source(tracks, not_among(missing_first), i);
            assert(tracks[j] == base[i]);
        }
    }
    entered_are_on_disk(base, files, music_dir, pattern, dry_run, moved_first, on_disk, n);
    assert(without_paths(after, missing_second) == after) by {
        assert forall|i: int| 0 <= i < after.len() implies not_among(missing_second)(
            #[trigger] after[i],
        ) by {
            assert(on_disk.contains(after[i].path));
        }
        filter_all(after, not_among(missing_second));
    }
    assert forall|k: int| 0 <= k < n && is_audio_path((#[trigger] files[k]).path) implies has_path(
        after,
        files[k].path,
    ) by {
        entered_are_held(base, files, music_dir, pattern, dry_run, moved_first, n, k);
    }
    entering_held_changes_nothing(after, files, music_dir, pattern, dry_run, moved_second, n);
}

/// When the file of one track is gone and nothing else has changed, the next
/// scan takes that track out of the catalog and leaves every other as it is.
/// That nothing else has changed means that the scan is told of the one path,
/// and that every track among the files that it finds is in the catalog, at
/// another path than that one. No pattern is set, or the scan is a dry run.
pub proof fn scan_after_one_deletion(
    tracks: Seq<TrackView>,
    i: int,
    files: Seq<FileView>,
    music_dir: Seq<char>,
    pattern: Option<Seq<char>>,
    dry_run: bool,
    moved: Seq<bool>,
)
    requires
        pattern is None || dry_run,
        distinct_paths(tracks),
        0 <= i < tracks.len(),
        forall|k: int|
            0 <= k < files.len() && is_audio_path((#[trigger] files[k]).path) ==> has_path(
                tracks,
                files[k].path,
            ) && files[k].path != tracks[i].path,
    ensures
        scanned(tracks, seq![tracks[i].path], files, music_dir, pattern, dry_run, moved)
            == tracks.remove(i),
{
    prune_of_one_takes_that_track(tracks, i);
    let left = tracks.remove(i);
    assert forall|k: int|
        0 <= k < files.len() && is_audio_path((#[trigger] files[k]).path) implies has_path(
        left,
        files[k].path,
    ) by {
        let j = choose|j: int| 0 <= j < tracks.len() && (#[trigger] tracks[j]).path == files[k].path;
        if j < i {
            assert(left[j] == tracks[j]);
        } else {
            assert(left[j - 1] == tracks[j]);
        }
    }
    entering_held_changes_nothing(left, files, music_dir, pattern, dry_run, moved, files.len() as int);
}

/// With no pattern set, and in a dry run, a scan enters files that are tracks
/// and no others: every path that it adds has the extension of a track.
pub proof fn scan_adds_tracks_only(
    tracks: Seq<TrackView>,
    files: Seq<FileView>,
    music_dir: Seq<char>,
    pattern: Option<Seq<char>>,
    dry_run: bool,
    moved: Seq<bool>,
    n: int,
    k: int,
)
    requires
        pattern is None || dry_run,
        0 <= n <= files.len(),
        0 <= k < added_upto(tracks, files, music_dir, pattern, dry_run, moved, n).len(),
    ensures
        is_audio_path(added_upto(tracks, files, music_dir, pattern, dry_run, moved, n)[k]),
    decreases n,
{
    let rest = added_upto(tracks, files, music_dir, pattern, dry_run, moved, n - 1);
    if k < rest.len() {
        scan_adds_tracks_only(tracks, files, music_dir, pattern, dry_run, moved, n - 1, k);
    }
}

/// A dry run moves nothing and enters every track where it is: whatever the
/// pattern wants, the path under which a file is entered is the file's own.
pub proof fn dry_run_enters_files_where_they_are(
    files: Seq<FileView>,
    music_dir: Seq<char>,
    pattern: Option<Seq<char>>,
    moved: Seq<bool>,
    i: int,
)
    requires
        0 <= i < files.len(),
    ensures
        entry_at(files, music_dir, pattern, true, moved, i) == if is_audio_path(files[i].path) {
            Some(files[i].path)
        } else {
            None
        },
{
}

} // verus!
