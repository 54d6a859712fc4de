//! The catalog: the tracks and the playlists that are known, each found by
//! its path, in the order in which they were entered.

use crate::seqs::{filter_drops_one, filter_next, filter_pair_source, filter_source};
use crate::text::string_views;
use vstd::prelude::*;

verus! {

/// A track of the catalog. The path identifies it; a duration of 0 seconds
/// means that the duration is not known.
#[derive(Debug, Clone, PartialEq, Eq)]
pub struct Track {
    pub path: String,
    pub artist: String,
    pub album: String,
    pub album_artist: String,
    pub title: String,
    pub duration: u64,
}

/// What a `Track` holds, as mathematical values.
pub struct TrackView {
    pub path: Seq<char>,
    pub artist: Seq<char>,
    pub album: Seq<char>,
    pub album_artist: Seq<char>,
    pub title: Seq<char>,
    pub duration: nat,
}

impl View for Track {
    type V = TrackView;

    open spec fn view(&self) -> TrackView {
        TrackView {
            path: self.path@,
            artist: self.artist@,
            album: self.album@,
            album_artist: self.album_artist@,
            title: self.title@,
            duration: self.duration as nat,
        }
    }
}

/// A playlist of the catalog: the path of its file and the name shown for it.
#[derive(Debug, Clone, PartialEq, Eq)]
pub struct Playlist {
    pub name: String,
    pub path: String,
}

/// What a `Playlist` holds, as mathematical values.
pub struct PlaylistView {
    pub name: Seq<char>,
    pub path: Seq<char>,
}

impl View for Playlist {
    type V = PlaylistView;

    open spec fn view(&self) -> PlaylistView {
        PlaylistView { name: self.name@, path: self.path@ }
    }
}

/// Which tracks a query asks for.
#[derive(Debug, Clone, PartialEq, Eq)]
pub enum TrackFilter {
    /// Every track.
    All,
    /// The tracks with this artist and this title.
    ByArtistTitle { artist: String, title: String },
    /// The tracks whose duration is not known.
    WithoutDuration,
}

/// The tracks and playlists of a catalog, as mathematical values.
pub struct CatalogView {
    pub tracks: Seq<TrackView>,
    pub playlists: Seq<PlaylistView>,
}

/// An entry of the catalog: a record that is found by its path and that can
/// be copied.
pub trait Entry: View + Sized {
    /// The path of an entry, from what the entry holds.
    spec fn shown_path(v: Self::V) -> Seq<char>;

    /// The path of the entry.
    fn path_ref(&self) -> (p: &String)
        ensures
            p@ == Self::shown_path(self@),
    ;

    /// An entry with the same contents.
    fn copied(&self) -> (c: Self)
        ensures
            c@ == self@,
    ;
}

/// The views of a sequence of entries.
pub open spec fn views_of<T: View>(v: Seq<T>) -> Seq<T::V> {
    v.map_values(|t: T| t@)
}

/// The paths of entries, in order.
pub open spec fn shown_paths<T: Entry>(entries: Seq<T::V>) -> Seq<Seq<char>> {
    entries.map_values(|v: T::V| T::shown_path(v))
}

/// The test for an entry whose path is one of `gone`.
pub open spec fn at_one_of<T: Entry>(gone: Seq<Seq<char>>) -> spec_fn(T::V) -> bool {
    |v: T::V| gone.contains(T::shown_path(v))
}

/// The test for an entry whose path is none of `gone`.
pub open spec fn at_none_of<T: Entry>(gone: Seq<Seq<char>>) -> spec_fn(T::V) -> bool {
    |v: T::V| !gone.contains(T::shown_path(v))
}

/// The views of a sequence of tracks.
pub open spec fn track_views(v: Seq<Track>) -> Seq<TrackView> {
    views_of(v)
}

/// The views of a sequence of playlists.
pub open spec fn playlist_views(v: Seq<Playlist>) -> Seq<PlaylistView> {
    views_of(v)
}

/// Some track has the path `p`.
pub open spec fn has_path(tracks: Seq<TrackView>, p: Seq<char>) -> bool {
    exists|i: int| 0 <= i < tracks.len() && (#[trigger] tracks[i]).path == p
}

/// No two tracks have the same path.
pub open spec fn distinct_paths(tracks: Seq<TrackView>) -> bool {
    forall|i: int, j: int|
        0 <= i < j < tracks.len() ==> (#[trigger] tracks[i]).path != (#[trigger] tracks[j]).path
}

/// Some playlist has the path `p`.
pub open spec fn has_playlist(playlists: Seq<PlaylistView>, p: Seq<char>) -> bool {
    exists|i: int| 0 <= i < playlists.len() && (#[trigger] playlists[i]).path == p
}

/// No two playlists have the same path.
pub open spec fn distinct_playlists(playlists: Seq<PlaylistView>) -> bool {
    forall|i: int, j: int|
        0 <= i < j < playlists.len() ==> (#[trigger] playlists[i]).path != (
        #[trigger] playlists[j]).path
}

/// The paths of the tracks, in order.
pub open spec fn paths_of(tracks: Seq<TrackView>) -> Seq<Seq<char>> {
    shown_paths::<Track>(tracks)
}

/// The paths of the playlists, in order.
pub open spec fn playlist_paths_of(playlists: Seq<PlaylistView>) -> Seq<Seq<char>> {
    shown_paths::<Playlist>(playlists)
}

/// The tracks with `t` entered: behind the others where its path is new,
/// and not at all where a track has that path already.
pub open spec fn upserted(tracks: Seq<TrackView>, t: TrackView) -> Seq<TrackView> {
    if has_path(tracks, t.path) {
        tracks
    } else {
        tracks.push(t)
    }
}

/// The playlists with `p` entered: behind the others where its path is new,
/// and not at all where a playlist has that path already.
pub open spec fn playlist_upserted(playlists: Seq<PlaylistView>, p: PlaylistView) -> Seq<
    PlaylistView,
> {
    if has_playlist(playlists, p.path) {
        playlists
    } else {
        playlists.push(p)
    }
}

/// The test for a path that is one of `gone`.
pub open spec fn among(gone: Seq<Seq<char>>) -> spec_fn(TrackView) -> bool {
    at_one_of::<Track>(gone)
}

/// The test for a path that is none of `gone`.
pub open spec fn not_among(gone: Seq<Seq<char>>) -> spec_fn(TrackView) -> bool {
    at_none_of::<Track>(gone)
}

/// The tracks whose path is none of `gone`, in their order.
pub open spec fn without_paths(tracks: Seq<TrackView>, gone: Seq<Seq<char>>) -> Seq<TrackView> {
    tracks.filter(not_among(gone))
}

/// The tracks whose path is one of `gone`, in their order.
pub open spec fn with_paths(tracks: Seq<TrackView>, gone: Seq<Seq<char>>) -> Seq<TrackView> {
    tracks.filter(among(gone))
}

/// The test for a playlist whose path is one of `gone`.
pub open spec fn playlist_among(gone: Seq<Seq<char>>) -> spec_fn(PlaylistView) -> bool {
    at_one_of::<Playlist>(gone)
}

/// The test for a playlist whose path is none of `gone`.
pub open spec fn playlist_not_among(gone: Seq<Seq<char>>) -> spec_fn(PlaylistView) -> bool {
    at_none_of::<Playlist>(gone)
}

/// The playlists whose path is none of `gone`, in their order.
pub open spec fn playlists_without(playlists: Seq<PlaylistView>, gone: Seq<Seq<char>>) -> Seq<
    PlaylistView,
> {
    playlists.filter(playlist_not_among(gone))
}

/// The playlists whose path is one of `gone`, in their order.
pub open spec fn playlists_with(playlists: Seq<PlaylistView>, gone: Seq<Seq<char>>) -> Seq<
    PlaylistView,
> {
    playlists.filter(playlist_among(gone))
}

/// The track has this artist and this title.
pub open spec fn is_by(t: TrackView, artist: Seq<char>, title: Seq<char>) -> bool {
    t.artist == artist && t.title == title
}

/// The track has this artist and this title, and another path than `keep`.
pub open spec fn is_rival(t: TrackView, artist: Seq<char>, title: Seq<char>, keep: Seq<char>) -> bool {
    is_by(t, artist, title) && t.path != keep
}

/// The test for a rival of `keep`.
pub open spec fn rival_of(artist: Seq<char>, title: Seq<char>, keep: Seq<char>) -> spec_fn(
    TrackView,
) -> bool {
    |t: TrackView| is_rival(t, artist, title, keep)
}

/// The test for a track that is no rival of `keep`.
pub open spec fn no_rival_of(artist: Seq<char>, title: Seq<char>, keep: Seq<char>) -> spec_fn(
    TrackView,
) -> bool {
    |t: TrackView| !is_rival(t, artist, title, keep)
}

/// The tracks with this artist and this title other than the one at `keep`.
pub open spec fn rivals(
    tracks: Seq<TrackView>,
    artist: Seq<char>,
    title: Seq<char>,
    keep: Seq<char>,
) -> Seq<TrackView> {
    tracks.filter(rival_of(artist, title, keep))
}

/// The tracks that are left when the rivals of `keep` are taken out.
pub open spec fn without_rivals(
    tracks: Seq<TrackView>,
    artist: Seq<char>,
    title: Seq<char>,
    keep: Seq<char>,
) -> Seq<TrackView> {
    tracks.filter(no_rival_of(artist, title, keep))
}

/// The track `t` with its duration set to `duration` where its path is `path`.
pub open spec fn timed(t: TrackView, path: Seq<char>, duration: nat) -> TrackView {
    if t.path == path {
        TrackView { duration: duration, ..t }
    } else {
        t
    }
}

/// The tracks with the duration of the track at `path` set to `duration`.
pub open spec fn with_duration(tracks: Seq<TrackView>, path: Seq<char>, duration: nat) -> Seq<
    TrackView,
> {
    tracks.map_values(|t: TrackView| timed(t, path, duration))
}

/// The filter as a mathematical value.
pub enum FilterView {
    All,
    ByArtistTitle { artist: Seq<char>, title: Seq<char> },
    WithoutDuration,
}

impl View for TrackFilter {
    type V = FilterView;

    open spec fn view(&self) -> FilterView {
        match self {
            TrackFilter::All => FilterView::All,
            TrackFilter::ByArtistTitle { artist, title } => FilterView::ByArtistTitle {
                artist: artist@,
                title: title@,
            },
            TrackFilter::WithoutDuration => FilterView::WithoutDuration,
        }
    }
}

/// The filter lets the track through.
pub open spec fn admits(f: FilterView, t: TrackView) -> bool {
    match f {
        FilterView::All => true,
        FilterView::ByArtistTitle { artist, title } => is_by(t, artist, title),
        FilterView::WithoutDuration => t.duration == 0,
    }
}

/// The test for a track that the filter lets through.
pub open spec fn admitted_by(f: FilterView) -> spec_fn(TrackView) -> bool {
    |t: TrackView| admits(f, t)
}

/// The tracks that the filter lets through, in their order.
pub open spec fn selected(tracks: Seq<TrackView>, f: FilterView) -> Seq<TrackView> {
    tracks.filter(admitted_by(f))
}

impl Track {
    /// A track with the same contents.
    pub fn duplicate(&self) -> (t: Track)
        ensures
            t@ == self@,
    {
        Track {
            path: self.path.clone(),
            artist: self.artist.clone(),
            album: self.album.clone(),
            album_artist: self.album_artist.clone(),
            title: self.title.clone(),
            duration: self.duration,
        }
    }
}

impl Playlist {
    /// A playlist with the same contents.
    pub fn duplicate(&self) -> (p: Playlist)
        ensures
            p@ == self@,
    {
        Playlist { name: self.name.clone(), path: self.path.clone() }
    }
}

impl Entry for Track {
    open spec fn shown_path(v: TrackView) -> Seq<char> {
        v.path
    }

    fn path_ref(&self) -> (p: &String) {
        &self.path
    }

    fn copied(&self) -> (c: Track) {
        self.duplicate()
    }
}

impl Entry for Playlist {
    open spec fn shown_path(v: PlaylistView) -> Seq<char> {
        v.path
    }

    fn path_ref(&self) -> (p: &String) {
        &self.path
    }

    fn copied(&self) -> (c: Playlist) {
        self.duplicate()
    }
}

/// Whether `list` holds the text `s`.
pub fn holds(list: &Vec<String>, s: &String) -> (r: bool)
    ensures
        r == string_views(list@).contains(s@),
{
    let ghost views = string_views(list@);
    let mut i: usize = 0;
    while i < list.len()
        invariant
            i <= list.len(),
            views == string_views(list@),
            forall|k: int| 0 <= k < i ==> views[k] != s@,
        decreases list.len() - i,
    {
        if list[i] == *s {
            assert(views[i as int] == s@);
            return true;
        }
        i += 1;
    }
    false
}

/// Parts the entries by their paths: those whose path is none of `missing`,
/// and the paths of the others, both in the order of the entries.
fn split_missing<T: Entry>(entries: &Vec<T>, missing: &Vec<String>) -> (parted: (Vec<T>, Vec<String>))
    ensures
        views_of(parted.0@) == views_of(entries@).filter(at_none_of::<T>(string_views(missing@))),
        string_views(parted.1@) == shown_paths::<T>(
            views_of(entries@).filter(at_one_of::<T>(string_views(missing@))),
        ),
{
    let ghost before = views_of(entries@);
    let ghost gone = string_views(missing@);
    let ghost stays = at_none_of::<T>(gone);
    let ghost goes = at_one_of::<T>(gone);
    let mut kept: Vec<T> = Vec::new();
    let mut removed: Vec<String> = Vec::new();
    let mut i: usize = 0;
    proof {
        reveal(Seq::filter);
        assert(before.take(0) =~= Seq::<T::V>::empty());
        assert(views_of(kept@) =~= before.take(0).filter(stays));
        assert(string_views(removed@) =~= shown_paths::<T>(before.take(0).filter(goes)));
    }
    while i < entries.len()
        invariant
            i <= entries.len(),
            before == views_of(entries@),
            gone == string_views(missing@),
            stays == at_none_of::<T>(gone),
            goes == at_one_of::<T>(gone),
            views_of(kept@) == before.take(i as int).filter(stays),
            string_views(removed@) == shown_paths::<T>(before.take(i as int).filter(goes)),
        decreases entries.len() - i,
    {
        let ghost kept_before = kept@;
        let ghost removed_before = removed@;
        proof {
            filter_next(before, stays, i as int);
            filter_next(before, goes, i as int);
        }
        let path = entries[i].path_ref();
        if holds(missing, path) {
            removed.push(path.clone());
            assert(string_views(removed@) =~= string_views(removed_before).push(
                T::shown_path(before[i as int]),
            ));
            assert(shown_paths::<T>(before.take(i as int).filter(goes).push(before[i as int]))
                =~= shown_paths::<T>(before.take(i as int).filter(goes)).push(
                T::shown_path(before[i as int]),
            ));
        } else {
            kept.push(entries[i].copied());
            assert(views_of(kept@) =~= views_of(kept_before).push(before[i as int]));
        }
        i += 1;
    }
    assert(before.take(before.len() as int) =~= before);
    (kept, removed)
}

/// The catalog. It is well formed when no two of its tracks have the same
/// path, and no two of its playlists: `new` makes such a catalog, and every
/// operation keeps it so.
#[derive(Debug, Clone)]
pub struct Catalog {
    tracks: Vec<Track>,
    playlists: Vec<Playlist>,
}

impl View for Catalog {
    type V = CatalogView;

    closed spec fn view(&self) -> CatalogView {
        CatalogView {
            tracks: track_views(self.tracks@),
            playlists: playlist_views(self.playlists@),
        }
    }
}

impl CatalogView {
    /// No path stands twice among the tracks, and none among the playlists.
    pub open spec fn wf(self) -> bool {
        distinct_paths(self.tracks) && distinct_playlists(self.playlists)
    }
}

impl Catalog {
    /// A catalog without tracks and playlists.
    pub fn new() -> (c: Catalog)
        ensures
            c@.wf(),
            c@.tracks.len() == 0,
            c@.playlists.len() == 0,
    {
        Catalog { tracks: Vec::new(), playlists: Vec::new() }
    }

    /// The tracks, in the order in which they were entered.
    pub fn tracks(&self) -> (v: &Vec<Track>)
        ensures
            track_views(v@) == self@.tracks,
    {
        &self.tracks
    }

    /// The playlists, in the order in which they were entered.
    pub fn playlists(&self) -> (v: &Vec<Playlist>)
        ensures
            playlist_views(v@) == self@.playlists,
    {
        &self.playlists
    }

    /// The index of the track at `path`.
    fn position(&self, path: &String) -> (r: Option<usize>)
        ensures
            match r {
                Some(i) => i < self@.tracks.len() && self@.tracks[i as int].path == path@,
                None => !has_path(self@.tracks, path@),
            },
    {
        let mut i: usize = 0;
        while i < self.tracks.len()
            invariant
                i <= self.tracks.len(),
                forall|k: int| 0 <= k < i ==> (#[trigger] self@.tracks[k]).path != path@,
            decreases self.tracks.len() - i,
        {
            if self.tracks[i].path == *path {
                return Some(i);
            }
            i += 1;
        }
        None
    }

    /// The index of the playlist at `path`.
    fn playlist_position(&self, path: &String) -> (r: Option<usize>)
        ensures
            match r {
                Some(i) => i < self@.playlists.len() && self@.playlists[i as int].path == path@,
                None => !has_playlist(self@.playlists, path@),
            },
    {
        let mut i: usize = 0;
        while i < self.playlists.len()
            invariant
                i <= self.playlists.len(),
                forall|k: int| 0 <= k < i ==> (#[trigger] self@.playlists[k]).path != path@,
            decreases self.playlists.len() - i,
        {
            if self.playlists[i].path == *path {
                return Some(i);
            }
            i += 1;
        }
        None
    }

    /// Whether a track has this path.
    pub fn contains_track(&self, path: &str) -> (r: bool)
        ensures
            r == has_path(self@.tracks, path@),
    {
        let key = path.to_owned();
        self.position(&key).is_some()
    }

    /// The track at `path`, if the catalog holds one.
    pub fn track_at(&self, path: &str) -> (found: Option<Track>)
        ensures
            found is Some == has_path(self@.tracks, path@),
            match found {
                Some(t) => t@.path == path@ && self@.tracks.contains(t@),
                None => true,
            },
    {
        let key = path.to_owned();
        match self.position(&key) {
            Some(i) => {
                let t = self.tracks[i].duplicate();
                assert(self@.tracks[i as int] == t@);
                Some(t)
            },
            None => None,
        }
    }

    /// The playlist at `path`, if the catalog holds one.
    pub fn playlist_at(&self, path: &str) -> (found: Option<Playlist>)
        ensures
            found is Some == has_playlist(self@.playlists, path@),
            match found {
                Some(p) => p@.path == path@ && self@.playlists.contains(p@),
                None => true,
            },
    {
        let key = path.to_owned();
        match self.playlist_position(&key) {
            Some(i) => {
                let p = self.playlists[i].duplicate();
                assert(self@.playlists[i as int] == p@);
                Some(p)
            },
            None => None,
        }
    }

    /// Enters a track. Where no track has the path yet, the track is put
    /// behind the others and the result is `true`; where one has, nothing
    /// changes, whatever the other values are.
    pub fn upsert_track(
        &mut self,
        path: &str,
        artist: &str,
        album: &str,
        album_artist: &str,
        title: &str,
        duration: u64,
    ) -> (inserted: bool)
        requires
            old(self)@.wf(),
        ensures
            final(self)@.wf(),
            inserted == !has_path(old(self)@.tracks, path@),
            final(self)@.tracks == upserted(
                old(self)@.tracks,
                TrackView {
                    path: path@,
                    artist: artist@,
                    album: album@,
                    album_artist: album_artist@,
                    title: title@,
                    duration: duration as nat,
                },
            ),
            !inserted ==> final(self)@ == old(self)@,
            final(self)@.playlists == old(self)@.playlists,
    {
        let key = path.to_owned();
        if self.position(&key).is_some() {
            return false;
        }
        let t = Track {
            path: key,
            artist: artist.to_owned(),
            album: album.to_owned(),
            album_artist: album_artist.to_owned(),
            title: title.to_owned(),
            duration,
        };
        let ghost before = self@.tracks;
        self.tracks.push(t);
        assert(self@.tracks =~= before.push(t@));
        true
    }

    /// Sets the duration of the track at `path`, and says whether there is
    /// such a track.
    pub fn update_track_duration(&mut self, path: &str, duration: u64) -> (found: bool)
        requires
            old(self)@.wf(),
        ensures
            final(self)@.wf(),
            found == has_path(old(self)@.tracks, path@),
            final(self)@.tracks == with_duration(old(self)@.tracks, path@, duration as nat),
            final(self)@.playlists == old(self)@.playlists,
    {
        let key = path.to_owned();
        let ghost before = self@.tracks;
        match self.position(&key) {
            None => {
                assert(self@.tracks =~= with_duration(before, path@, duration as nat));
                false
            },
            Some(i) => {
                let mut t = self.tracks[i].duplicate();
                t.duration = duration;
                self.tracks.set(i, t);
                assert(self@.tracks =~= with_duration(before, path@, duration as nat)) by {
                    assert forall|k: int| 0 <= k < before.len() implies #[trigger] self@.tracks[k]
                        == timed(before[k], path@, duration as nat) by {
                        if k != i {
                            assert(before[k].path != before[i as int].path);
                        }
                    }
                }
                assert(distinct_paths(self@.tracks)) by {
                    assert forall|a: int, b: int| 0 <= a < b < self@.tracks.len() implies (
                    #[trigger] self@.tracks[a]).path != (#[trigger] self@.tracks[b]).path by {
                        assert(self@.tracks[a].path == before[a].path);
                        assert(self@.tracks[b].path == before[b].path);
                    }
                }
                true
            },
        }
    }

    /// Takes out every track whose path is one of `missing`, and hands back
    /// the paths of the tracks taken out, in the order of the catalog.
    pub fn prune_missing_tracks(&mut self, missing: &Vec<String>) -> (removed: Vec<String>)
        requires
            old(self)@.wf(),
        ensures
            final(self)@.wf(),
            final(self)@.tracks == without_paths(
                old(self)@.tracks,
                string_views(missing@),
            ),
            string_views(removed@) == paths_of(
                with_paths(old(self)@.tracks, string_views(missing@)),
            ),
            final(self)@.playlists == old(self)@.playlists,
    {
        proof {
            filter_keeps_distinct(self@.tracks, not_among(string_views(missing@)));
        }
        let (kept, removed) = split_missing(&self.tracks, missing);
        self.tracks = kept;
        removed
    }

    /// Takes out the track at `path`, and says whether there was one.
    pub fn delete_track(&mut self, path: &str) -> (found: bool)
        requires
            old(self)@.wf(),
        ensures
            final(self)@.wf(),
            found == has_path(old(self)@.tracks, path@),
            final(self)@.tracks == without_paths(old(self)@.tracks, seq![path@]),
            final(self)@.playlists == old(self)@.playlists,
    {
        let ghost before = self@.tracks;
        let mut gone: Vec<String> = Vec::new();
        gone.push(path.to_owned());
        assert(string_views(gone@) =~= seq![path@]);
        let removed = self.prune_missing_tracks(&gone);
        proof {
            let hit = with_paths(before, seq![path@]);
            assert(paths_of(hit).len() == hit.len());
            if hit.len() > 0 {
                let j = filter_source(before, among(seq![path@]), 0);
                assert(seq![path@].contains(before[j].path));
                assert(before[j].path == path@);
            }
            if has_path(before, path@) {
                let j = choose|j: int| 0 <= j < before.len() && (#[trigger] before[j]).path == path@;
                assert(seq![path@][0] == path@);
                assert(among(seq![path@])(before[j]));
                before.lemma_filter_contains(among(seq![path@]), j);
            }
        }
        removed.len() > 0
    }

    /// Takes out every track with this artist and this title but the one at
    /// `keep`, and hands back the paths of the tracks taken out, in the order
    /// of the catalog.
    pub fn delete_tracks_by_artist_title(&mut self, artist: &str, title: &str, keep: &str) -> (removed:
        Vec<String>)
        requires
            old(self)@.wf(),
        ensures
            final(self)@.wf(),
            final(self)@.tracks == without_rivals(old(self)@.tracks, artist@, title@, keep@),
            string_views(removed@) == paths_of(
                rivals(old(self)@.tracks, artist@, title@, keep@),
            ),
            final(self)@.playlists == old(self)@.playlists,
    {
        let ghost before = self@.tracks;
        let artist_key = artist.to_owned();
        let title_key = title.to_owned();
        let keep_key = keep.to_owned();
        let mut kept: Vec<Track> = Vec::new();
        let mut removed: Vec<String> = Vec::new();
        let mut i: usize = 0;
        proof {
            reveal(Seq::filter);
            assert(before.take(0) =~= Seq::<TrackView>::empty());
            assert(track_views(kept@) =~= without_rivals(before.take(0), artist@, title@, keep@));
            assert(string_views(removed@) =~= paths_of(
                rivals(before.take(0), artist@, title@, keep@),
            ));
        }
        while i < self.tracks.len()
            invariant
                i <= self.tracks.len(),
                before == self@.tracks,
                artist_key@ == artist@,
                title_key@ == title@,
                keep_key@ == keep@,
                track_views(kept@) == without_rivals(before.take(i as int), artist@, title@, keep@),
                string_views(removed@) == paths_of(
                    rivals(before.take(i as int), artist@, title@, keep@),
                ),
            decreases self.tracks.len() - i,
        {
            let ghost kept_before = kept@;
            let ghost removed_before = removed@;
            proof {
                filter_next(before, no_rival_of(artist@, title@, keep@), i as int);
                filter_next(before, rival_of(artist@, title@, keep@), i as int);
            }
            let t = &self.tracks[i];
            if t.artist == artist_key && t.title == title_key && t.path != keep_key {
                removed.push(t.path.clone());
                assert(string_views(removed@) =~= string_views(
                    removed_before,
                ).push(before[i as int].path));
                assert(paths_of(
                    rivals(before.take(i as int), artist@, title@, keep@).push(before[i as int]),
                ) =~= paths_of(rivals(before.take(i as int), artist@, title@, keep@)).push(
                    before[i as int].path,
                ));
            } else {
                kept.push(t.duplicate());
                assert(track_views(kept@) =~= track_views(kept_before).push(before[i as int]));
            }
            i += 1;
        }
        proof {
            assert(before.take(before.len() as int) =~= before);
            filter_keeps_distinct(before, no_rival_of(artist@, title@, keep@));
        }
        self.tracks = kept;
        removed
    }

    /// The tracks that the filter lets through, in the order of the catalog.
    pub fn query_tracks(&self, filter: &TrackFilter) -> (found: Vec<Track>)
        ensures
            track_views(found@) == selected(self@.tracks, filter@),
    {
        let ghost all = self@.tracks;
        let mut found: Vec<Track> = Vec::new();
        let mut i: usize = 0;
        proof {
            reveal(Seq::filter);
            assert(all.take(0) =~= Seq::<TrackView>::empty());
            assert(track_views(found@) =~= selected(all.take(0), filter@));
        }
        while i < self.tracks.len()
            invariant
                i <= self.tracks.len(),
                all == self@.tracks,
                track_views(found@) == selected(all.take(i as int), filter@),
            decreases self.tracks.len() - i,
        {
            let ghost found_before = found@;
            proof {
                filter_next(all, admitted_by(filter@), i as int);
            }
            let t = &self.tracks[i];
            let pass = match filter {
                TrackFilter::All => true,
                TrackFilter::ByArtistTitle { artist, title } => t.artist == *artist && t.title
                    == *title,
                TrackFilter::WithoutDuration => t.duration == 0,
            };
            if pass {
                found.push(t.duplicate());
                assert(track_views(found@) =~= track_views(found_before).push(all[i as int]));
            }
            i += 1;
        }
        assert(all.take(all.len() as int) =~= all);
        found
    }

    /// The paths of the tracks, in the order of the catalog.
    pub fn track_paths(&self) -> (paths: Vec<String>)
        ensures
            string_views(paths@) == paths_of(self@.tracks),
    {
        let mut paths: Vec<String> = Vec::new();
        let mut i: usize = 0;
        while i < self.tracks.len()
            invariant
                i <= self.tracks.len(),
                string_views(paths@) == paths_of(self@.tracks).take(i as int),
            decreases self.tracks.len() - i,
        {
            let ghost paths_before = paths@;
            paths.push(self.tracks[i].path.clone());
            assert(string_views(paths@) =~= string_views(paths_before).push(
                self@.tracks[i as int].path,
            ));
            assert(paths_of(self@.tracks).take(i + 1) =~= paths_of(self@.tracks).take(i as int).push(
                self@.tracks[i as int].path,
            ));
            i += 1;
        }
        assert(paths_of(self@.tracks).take(self.tracks.len() as int) =~= paths_of(self@.tracks));
        paths
    }

    /// Enters a playlist. Where no playlist has the path yet, it is put behind
    /// the others and the result is `true`; where one has, nothing changes.
    pub fn upsert_playlist(&mut self, name: &str, path: &str) -> (inserted: bool)
        requires
            old(self)@.wf(),
        ensures
            final(self)@.wf(),
            inserted == !has_playlist(old(self)@.playlists, path@),
            final(self)@.playlists == playlist_upserted(
                old(self)@.playlists,
                PlaylistView { name: name@, path: path@ },
            ),
            !inserted ==> final(self)@ == old(self)@,
            final(self)@.tracks == old(self)@.tracks,
    {
        let key = path.to_owned();
        if self.playlist_position(&key).is_some() {
            return false;
        }
        let p = Playlist { name: name.to_owned(), path: key };
        let ghost before = self@.playlists;
        self.playlists.push(p);
        assert(self@.playlists =~= before.push(p@));
        true
    }

    /// Takes out every playlist whose path is one of `missing`, and hands back
    /// the paths of the playlists taken out, in the order of the catalog.
    pub fn prune_missing_playlists(&mut self, missing: &Vec<String>) -> (removed: Vec<String>)
        requires
            old(self)@.wf(),
        ensures
            final(self)@.wf(),
            final(self)@.playlists == playlists_without(
                old(self)@.playlists,
                string_views(missing@),
            ),
            string_views(removed@) == playlist_paths_of(
                playlists_with(old(self)@.playlists, string_views(missing@)),
            ),
            final(self)@.tracks == old(self)@.tracks,
    {
        proof {
            filter_keeps_distinct_playlists(
                self@.playlists,
                playlist_not_among(string_views(missing@)),
            );
        }
        let (kept, removed) = split_missing(&self.playlists, missing);
        self.playlists = kept;
        removed
    }

    /// The paths of the playlists, in the order of the catalog.
    pub fn query_playlist_paths(&self) -> (paths: Vec<String>)
        ensures
            string_views(paths@) == playlist_paths_of(self@.playlists),
    {
        let mut paths: Vec<String> = Vec::new();
        let mut i: usize = 0;
        while i < self.playlists.len()
            invariant
                i <= self.playlists.len(),
                string_views(paths@) == playlist_paths_of(self@.playlists).take(
                    i as int,
                ),
            decreases self.playlists.len() - i,
        {
            let ghost paths_before = paths@;
            paths.push(self.playlists[i].path.clone());
            assert(string_views(paths@) =~= string_views(paths_before).push(
                self@.playlists[i as int].path,
            ));
            assert(playlist_paths_of(self@.playlists).take(i + 1) =~= playlist_paths_of(
                self@.playlists,
            ).take(i as int).push(self@.playlists[i as int].path));
            i += 1;
        }
        assert(playlist_paths_of(self@.playlists).take(self.playlists.len() as int)
            =~= playlist_paths_of(self@.playlists));
        paths
    }
}

/// Tracks with distinct paths have distinct paths after any filter.
proof fn filter_keeps_distinct(tracks: Seq<TrackView>, pred: spec_fn(TrackView) -> bool)
    requires
        distinct_paths(tracks),
    ensures
        distinct_paths(tracks.filter(pred)),
{
    let f = tracks.filter(pred);
    assert forall|a: int, b: int| 0 <= a < b < f.len() implies (#[trigger] f[a]).path != (
    #[trigger] f[b]).path by {
        let (i, j) = filter_pair_source(tracks, pred, a, b);
        assert(tracks[i].path != tracks[j].path);
    }
}

/// Playlists with distinct paths have distinct paths after any filter.
proof fn filter_keeps_distinct_playlists(
    playlists: Seq<PlaylistView>,
    pred: spec_fn(PlaylistView) -> bool,
)
    requires
        distinct_playlists(playlists),
    ensures
        distinct_playlists(playlists.filter(pred)),
{
    let f = playlists.filter(pred);
    assert forall|a: int, b: int| 0 <= a < b < f.len() implies (#[trigger] f[a]).path != (
    #[trigger] f[b]).path by {
        let (i, j) = filter_pair_source(playlists, pred, a, b);
        assert(playlists[i].path != playlists[j].path);
    }
}

/// Entering a track whose path the catalog holds changes no track: the one
/// at that path keeps its artist, album, title and duration.
pub proof fn upsert_of_known_path_changes_nothing(tracks: Seq<TrackView>, t: TrackView, i: int)
    requires
        0 <= i < tracks.len(),
        tracks[i].path == t.path,
    ensures
        upserted(tracks, t) == tracks,
        upserted(tracks, t)[i] == tracks[i],
{
}

/// After a prune the catalog holds exactly the tracks whose paths are not
/// among the missing ones: every such track stays, and no other does.
pub proof fn prune_keeps_exactly_the_present(
    tracks: Seq<TrackView>,
    gone: Seq<Seq<char>>,
    t: TrackView,
)
    ensures
        without_paths(tracks, gone).contains(t) <==> tracks.contains(t) && !gone.contains(t.path),
{
    let pred = not_among(gone);
    let kept = tracks.filter(pred);
    if kept.contains(t) {
        let k = choose|k: int| 0 <= k < kept.len() && kept[k] == t;
        let j = filter_source(tracks, pred, k);
        assert(tracks[j] == t);
    }
    if tracks.contains(t) && !gone.contains(t.path) {
        let j = choose|j: int| 0 <= j < tracks.len() && tracks[j] == t;
        tracks.lemma_filter_contains(pred, j);
    }
}

/// When the file of one track is gone, the prune takes out that track and
/// no other: the rest stays, in its order.
pub proof fn prune_of_one_takes_that_track(tracks: Seq<TrackView>, i: int)
    requires
        distinct_paths(tracks),
        0 <= i < tracks.len(),
    ensures
        without_paths(tracks, seq![tracks[i].path]) == tracks.remove(i),
{
    let gone = seq![tracks[i].path];
    assert(gone[0] == tracks[i].path);
    assert forall|k: int| 0 <= k < tracks.len() && k != i implies not_among(gone)(
        #[trigger] tracks[k],
    ) by {
        if k < i {
            assert(tracks[k].path != tracks[i].path);
        } else {
            assert(tracks[i].path != tracks[k].path);
        }
    }
    filter_drops_one(tracks, not_among(gone), i);
}

/// When the file of one playlist is gone, the prune takes out that playlist
/// and no other: the rest stays, in its order.
pub proof fn prune_of_one_takes_that_playlist(playlists: Seq<PlaylistView>, i: int)
    requires
        distinct_playlists(playlists),
        0 <= i < playlists.len(),
    ensures
        playlists_without(playlists, seq![playlists[i].path]) == playlists.remove(i),
{
    let gone = seq![playlists[i].path];
    assert(gone[0] == playlists[i].path);
    assert forall|k: int| 0 <= k < playlists.len() && k != i implies playlist_not_among(gone)(
        #[trigger] playlists[k],
    ) by {
        if k < i {
            assert(playlists[k].path != playlists[i].path);
        } else {
            assert(playlists[i].path != playlists[k].path);
        }
    }
    filter_drops_one(playlists, playlist_not_among(gone), i);
}

} // verus!
