//! Duplicates: tracks that share a non-empty artist and title, and among
//! them the sets in which one file is of better quality than the rest.

use crate::catalog::{
    is_by, is_rival, no_rival_of, paths_of, rivals, track_views, without_rivals, Catalog, Track,
    TrackView,
};
use crate::paths::{extension, extension_of};
use crate::ranking::{is_stable_order, ordered, stable_order, stable_order_is_sorted};
use crate::seqs::{filter_next, filter_source};
use crate::text::{chars_of, string_views};
use vstd::prelude::*;

verus! {

/// The track has an artist and a title.
pub open spec fn has_key(t: TrackView) -> bool {
    t.artist.len() > 0 && t.title.len() > 0
}

/// The test for a track with this artist and this title.
pub open spec fn by_key(artist: Seq<char>, title: Seq<char>) -> spec_fn(TrackView) -> bool {
    |t: TrackView| is_by(t, artist, title)
}

/// The paths of the tracks with this artist and this title, in the order of
/// the catalog.
pub open spec fn members(tracks: Seq<TrackView>, artist: Seq<char>, title: Seq<char>) -> Seq<
    Seq<char>,
> {
    paths_of(tracks.filter(by_key(artist, title)))
}

/// No track before index `i` has the artist and title of the track at `i`.
pub open spec fn is_first_of_key(tracks: Seq<TrackView>, i: int) -> bool {
    forall|j: int| 0 <= j < i ==> !is_by(#[trigger] tracks[j], tracks[i].artist, tracks[i].title)
}

/// Tracks that share an artist and a title.
#[derive(Debug, Clone, PartialEq, Eq)]
pub struct DuplicateGroup {
    pub artist: String,
    pub title: String,
    /// The paths of the tracks, in the order of the catalog.
    pub paths: Vec<String>,
}

/// What a `DuplicateGroup` holds, as mathematical values.
pub struct GroupView {
    pub artist: Seq<char>,
    pub title: Seq<char>,
    pub paths: Seq<Seq<char>>,
}

impl View for DuplicateGroup {
    type V = GroupView;

    open spec fn view(&self) -> GroupView {
        GroupView { artist: self.artist@, title: self.title@, paths: string_views(self.paths@) }
    }
}

/// The views of a sequence of groups.
pub open spec fn group_views(v: Seq<DuplicateGroup>) -> Seq<GroupView> {
    v.map_values(|g: DuplicateGroup| g@)
}

/// All the tracks with this artist and this title, as a group.
pub open spec fn group_of(tracks: Seq<TrackView>, artist: Seq<char>, title: Seq<char>) -> GroupView {
    GroupView { artist: artist, title: title, paths: members(tracks, artist, title) }
}

/// The track at index `i` is the first of a group of duplicates: it has an
/// artist and a title, no track before it has the same, and at least one
/// other track has.
pub open spec fn leads_group(tracks: Seq<TrackView>, i: int) -> bool {
    &&& 0 <= i < tracks.len()
    &&& has_key(tracks[i])
    &&& is_first_of_key(tracks, i)
    &&& members(tracks, tracks[i].artist, tracks[i].title).len() > 1
}

/// The groups of duplicates whose first track stands among the first `n`
/// tracks, in the order of those first tracks.
pub open spec fn groups_upto(tracks: Seq<TrackView>, n: int) -> Seq<GroupView>
    decreases n,
{
    if n <= 0 || n > tracks.len() {
        Seq::empty()
    } else {
        let rest = groups_upto(tracks, n - 1);
        if leads_group(tracks, n - 1) {
            rest.push(group_of(tracks, tracks[n - 1].artist, tracks[n - 1].title))
        } else {
            rest
        }
    }
}

/// The groups of duplicates among the tracks: for each artist and title that
/// two tracks or more share, and that are not empty, all the tracks that have
/// them.
pub open spec fn duplicate_groups(tracks: Seq<TrackView>) -> Seq<GroupView> {
    groups_upto(tracks, tracks.len() as int)
}

/// The code of `c`, and that of the small letter for a capital ASCII letter.
pub open spec fn lower_code(c: char) -> u32 {
    let u = c as u32;
    if 0x41 <= u <= 0x5A {
        (u + 0x20) as u32
    } else {
        u
    }
}

/// `s` is `word` but for the case of its ASCII letters; `word` is written in
/// small letters.
pub open spec fn is_word(s: Seq<char>, word: Seq<char>) -> bool {
    &&& s.len() == word.len()
    &&& forall|k: int| 0 <= k < s.len() ==> lower_code(#[trigger] s[k]) == word[k] as u32
}

/// The rank of FLAC, the best.
pub const RANK_FLAC: u8 = 1;

/// The rank of M4A.
pub const RANK_M4A: u8 = 2;

/// The rank of MP3.
pub const RANK_MP3: u8 = 3;

/// The rank of every other format.
pub const RANK_OTHER: u8 = 100;

/// The rank of the format that an extension stands for. A smaller rank is a
/// better format. The case of the letters does not count.
pub open spec fn quality_rank(ext: Seq<char>) -> u8 {
    if is_word(ext, seq!['f', 'l', 'a', 'c']) {
        RANK_FLAC
    } else if is_word(ext, seq!['m', '4', 'a']) {
        RANK_M4A
    } else if is_word(ext, seq!['m', 'p', '3']) {
        RANK_MP3
    } else {
        RANK_OTHER
    }
}

/// A file with the rank of its format.
#[derive(Debug, Clone, PartialEq, Eq)]
pub struct Rated {
    pub rank: u8,
    pub path: String,
}

/// What a `Rated` holds, as mathematical values.
pub struct RatedView {
    pub rank: u8,
    pub path: Seq<char>,
}

impl View for Rated {
    type V = RatedView;

    open spec fn view(&self) -> RatedView {
        RatedView { rank: self.rank, path: self.path@ }
    }
}

/// The views of a sequence of rated files.
pub open spec fn rated_views(v: Seq<Rated>) -> Seq<RatedView> {
    v.map_values(|r: Rated| r@)
}

/// Those of the first `n` paths that have an extension, each with the rank
/// of its format, in their order.
pub open spec fn rated_upto(paths: Seq<Seq<char>>, n: int) -> Seq<RatedView>
    decreases n,
{
    if n <= 0 || n > paths.len() {
        Seq::empty()
    } else {
        let rest = rated_upto(paths, n - 1);
        match extension(paths[n - 1]) {
            Some(e) => rest.push(RatedView { rank: quality_rank(e), path: paths[n - 1] }),
            None => rest,
        }
    }
}

/// The ranks of rated files, as keys to order them by.
pub open spec fn ranks_of(rated: Seq<RatedView>) -> Seq<u64> {
    rated.map_values(|r: RatedView| r.rank as u64)
}

/// The paths that have an extension, each with the rank of its format: the
/// best format first, and of two files of one rank the one that came first.
pub open spec fn by_quality(paths: Seq<Seq<char>>) -> Seq<RatedView> {
    let rated = rated_upto(paths, paths.len() as int);
    let order = stable_order(ranks_of(rated), false);
    Seq::new(rated.len(), |k: int| rated[order[k] as int])
}

/// The best file of the listing is of a better format than the one after it.
pub open spec fn has_better(listing: Seq<RatedView>) -> bool {
    listing.len() > 1 && listing[0].rank < listing[1].rank
}

/// A group of duplicates in which one file is better than the rest.
#[derive(Debug, Clone, PartialEq, Eq)]
pub struct QualityGroup {
    pub artist: String,
    pub title: String,
    /// The files with their ranks, the best first.
    pub members: Vec<Rated>,
}

/// What a `QualityGroup` holds, as mathematical values.
pub struct QualityView {
    pub artist: Seq<char>,
    pub title: Seq<char>,
    pub members: Seq<RatedView>,
}

impl View for QualityGroup {
    type V = QualityView;

    open spec fn view(&self) -> QualityView {
        QualityView { artist: self.artist@, title: self.title@, members: rated_views(self.members@) }
    }
}

/// The views of a sequence of quality groups.
pub open spec fn quality_views(v: Seq<QualityGroup>) -> Seq<QualityView> {
    v.map_values(|g: QualityGroup| g@)
}

/// The group with its files listed by quality.
pub open spec fn quality_of(g: GroupView) -> QualityView {
    QualityView { artist: g.artist, title: g.title, members: by_quality(g.paths) }
}

/// Those of the first `n` groups in which the best file is better than the
/// one after it, each listed by quality.
pub open spec fn quality_upto(groups: Seq<GroupView>, n: int) -> Seq<QualityView>
    decreases n,
{
    if n <= 0 || n > groups.len() {
        Seq::empty()
    } else {
        let rest = quality_upto(groups, n - 1);
        if has_better(by_quality(groups[n - 1].paths)) {
            rest.push(quality_of(groups[n - 1]))
        } else {
            rest
        }
    }
}

/// The groups of duplicates in which the best file is of a better format
/// than the one after it.
pub open spec fn quality_groups(tracks: Seq<TrackView>) -> Seq<QualityView> {
    let groups = duplicate_groups(tracks);
    quality_upto(groups, groups.len() as int)
}

/// Which file of a group of duplicates is kept.
#[derive(Debug, PartialEq, Eq, Clone, Copy)]
pub enum Keep {
    /// The file at this index of the group's paths; the others go.
    Path(usize),
    /// Nothing is decided: every file stays. This is also the answer where
    /// nobody can be asked.
    Skip,
}

/// The path that is kept, where the choice names a file of the group.
pub open spec fn kept_path(g: GroupView, choice: Keep) -> Option<Seq<char>> {
    match choice {
        Keep::Path(i) => if i < g.paths.len() {
            Some(g.paths[i as int])
        } else {
            None
        },
        Keep::Skip => None,
    }
}

/// The tracks after the choice for the group: without the tracks of the
/// group's artist and title other than the kept one.
pub open spec fn resolved(tracks: Seq<TrackView>, g: GroupView, choice: Keep) -> Seq<TrackView> {
    match kept_path(g, choice) {
        Some(keep) => without_rivals(tracks, g.artist, g.title, keep),
        None => tracks,
    }
}

/// The paths of the tracks that the choice for the group takes out.
pub open spec fn discarded(tracks: Seq<TrackView>, g: GroupView, choice: Keep) -> Seq<Seq<char>> {
    match kept_path(g, choice) {
        Some(keep) => paths_of(rivals(tracks, g.artist, g.title, keep)),
        None => Seq::empty(),
    }
}

/// The paths of the tracks with this artist and this title.
fn paths_by(tracks: &Vec<Track>, artist: &String, title: &String) -> (paths: Vec<String>)
    ensures
        string_views(paths@) == members(track_views(tracks@), artist@, title@),
{
    let ghost all = track_views(tracks@);
    let ghost pred = by_key(artist@, title@);
    let mut paths: Vec<String> = Vec::new();
    let mut i: usize = 0;
    proof {
        reveal(Seq::filter);
        assert(all.take(0) =~= Seq::<TrackView>::empty());
        assert(string_views(paths@) =~= paths_of(all.take(0).filter(pred)));
    }
    while i < tracks.len()
        invariant
            i <= tracks.len(),
            all == track_views(tracks@),
            pred == by_key(artist@, title@),
            string_views(paths@) == paths_of(all.take(i as int).filter(pred)),
        decreases tracks.len() - i,
    {
        let ghost paths_before = paths@;
        proof {
            filter_next(all, pred, i as int);
        }
        let t = &tracks[i];
        if t.artist == *artist && t.title == *title {
            paths.push(t.path.clone());
            assert(string_views(paths@) =~= string_views(paths_before).push(all[i as int].path));
            assert(paths_of(all.take(i as int).filter(pred).push(all[i as int])) =~= paths_of(
                all.take(i as int).filter(pred),
            ).push(all[i as int].path));
        }
        i += 1;
    }
    assert(all.take(all.len() as int) =~= all);
    paths
}

/// Whether no track before index `i` has the artist and title of the track
/// at `i`.
fn first_of_key(tracks: &Vec<Track>, i: usize) -> (r: bool)
    requires
        i < tracks.len(),
    ensures
        r == is_first_of_key(track_views(tracks@), i as int),
{
    let ghost all = track_views(tracks@);
    let mut j: usize = 0;
    while j < i
        invariant
            j <= i < tracks.len(),
            all == track_views(tracks@),
            forall|k: int| 0 <= k < j ==> !is_by(#[trigger] all[k], all[i as int].artist, all[i as int].title),
        decreases i - j,
    {
        if tracks[j].artist == tracks[i].artist && tracks[j].title == tracks[i].title {
            assert(is_by(all[j as int], all[i as int].artist, all[i as int].title));
            return false;
        }
        j += 1;
    }
    true
}

/// The groups of duplicates of the catalog: for each artist and title that
/// two tracks or more share, and that are not empty, one group with the paths
/// of all the tracks that have them. The groups stand in the order of their
/// first tracks.
pub fn find_duplicates(catalog: &Catalog) -> (groups: Vec<DuplicateGroup>)
    ensures
        group_views(groups@) == duplicate_groups(catalog@.tracks),
{
    let tracks = catalog.tracks();
    let ghost all = track_views(tracks@);
    let mut groups: Vec<DuplicateGroup> = Vec::new();
    let mut n: usize = 0;
    assert(group_views(groups@) =~= groups_upto(all, 0));
    while n < tracks.len()
        invariant
            n <= tracks.len(),
            all == track_views(tracks@),
            group_views(groups@) == groups_upto(all, n as int),
        decreases tracks.len() - n,
    {
        let ghost groups_before = groups@;
        let t = &tracks[n];
        if !t.artist.as_str().is_empty() && !t.title.as_str().is_empty() && first_of_key(tracks, n) {
            let paths = paths_by(tracks, &t.artist, &t.title);
            if paths.len() > 1 {
                let g = DuplicateGroup { artist: t.artist.clone(), title: t.title.clone(), paths };
                groups.push(g);
                assert(group_views(groups@) =~= group_views(groups_before).push(g@));
            }
        }
        n += 1;
    }
    groups
}

/// Whether `s` is `word` but for the case of its ASCII letters.
fn matches_word(s: &Vec<char>, word: &Vec<char>) -> (r: bool)
    ensures
        r == is_word(s@, word@),
{
    if s.len() != word.len() {
        return false;
    }
    let mut k: usize = 0;
    while k < s.len()
        invariant
            k <= s.len(),
            s.len() == word.len(),
            forall|j: int| 0 <= j < k ==> lower_code(#[trigger] s@[j]) == word@[j] as u32,
        decreases s.len() - k,
    {
        let u: u32 = s[k] as u32;
        let low: u32 = if 0x41 <= u && u <= 0x5A {
            u + 0x20
        } else {
            u
        };
        if low != word[k] as u32 {
            return false;
        }
        k += 1;
    }
    true
}

/// The rank of the format that the extension stands for.
pub fn rank_of(ext: &Vec<char>) -> (rank: u8)
    ensures
        rank == quality_rank(ext@),
{
    let mut word: Vec<char> = Vec::new();
    word.push('f');
    word.push('l');
    word.push('a');
    word.push('c');
    assert(word@ =~= seq!['f', 'l', 'a', 'c']);
    if matches_word(ext, &word) {
        return RANK_FLAC;
    }
    let mut word: Vec<char> = Vec::new();
    word.push('m');
    word.push('4');
    word.push('a');
    assert(word@ =~= seq!['m', '4', 'a']);
    if matches_word(ext, &word) {
        return RANK_M4A;
    }
    let mut word: Vec<char> = Vec::new();
    word.push('m');
    word.push('p');
    word.push('3');
    assert(word@ =~= seq!['m', 'p', '3']);
    if matches_word(ext, &word) {
        return RANK_MP3;
    }
    RANK_OTHER
}

/// The name of the format of a rank: `FLAC`, `M4A`, `MP3`, or `OTHER`.
pub fn quality_label(rank: u8) -> (label: &'static str)
    ensures
        label@ == if rank == RANK_FLAC {
            "FLAC"@
        } else if rank == RANK_M4A {
            "M4A"@
        } else if rank == RANK_MP3 {
            "MP3"@
        } else {
            "OTHER"@
        },
{
    if rank == RANK_FLAC {
        "FLAC"
    } else if rank == RANK_M4A {
        "M4A"
    } else if rank == RANK_MP3 {
        "MP3"
    } else {
        "OTHER"
    }
}

/// The paths that have an extension, each with the rank of its format: the
/// best format first.
pub fn rank_by_quality(paths: &Vec<String>) -> (listing: Vec<Rated>)
    ensures
        rated_views(listing@) == by_quality(string_views(paths@)),
{
    let ghost pv = string_views(paths@);
    let mut rated: Vec<Rated> = Vec::new();
    let mut keys: Vec<u64> = Vec::new();
    let mut n: usize = 0;
    assert(rated_views(rated@) =~= rated_upto(pv, 0));
    assert(keys@ =~= ranks_of(rated_upto(pv, 0)));
    while n < paths.len()
        invariant
            n <= paths.len(),
            pv == string_views(paths@),
            rated_views(rated@) == rated_upto(pv, n as int),
            keys@ == ranks_of(rated_upto(pv, n as int)),
        decreases paths.len() - n,
    {
        let ghost rated_before = rated@;
        let ghost keys_before = keys@;
        assert(pv[n as int] == paths@[n as int]@);
        match extension_of(&chars_of(paths[n].as_str())) {
            Some(e) => {
                let r = Rated { rank: rank_of(&e), path: paths[n].clone() };
                keys.push(r.rank as u64);
                rated.push(r);
                assert(rated_views(rated@) =~= rated_views(rated_before).push(r@));
                assert(keys@ =~= ranks_of(rated_upto(pv, n + 1)));
            },
            None => {},
        }
        n += 1;
    }
    let ghost rv = rated_upto(pv, pv.len() as int);
    let order = ordered(&keys, false);
    let mut listing: Vec<Rated> = Vec::new();
    let mut k: usize = 0;
    while k < order.len()
        invariant
            k <= order.len(),
            order.len() == rated.len(),
            rv == rated_views(rated@),
            keys@ == ranks_of(rv),
            is_stable_order(keys@, false, order@),
            listing@.len() == k,
            forall|j: int| 0 <= j < k ==> (#[trigger] listing@[j])@ == rv[order@[j] as int],
        decreases order.len() - k,
    {
        let at: usize = order[k];
        let r = Rated { rank: rated[at].rank, path: rated[at].path.clone() };
        assert(r@ == rated@[at as int]@);
        listing.push(r);
        k += 1;
    }
    assert(rated_views(listing@) =~= by_quality(pv));
    listing
}

/// The groups of duplicates in which one file is of a better format than the
/// rest: each with its files listed by quality, the best first. A group whose
/// two best files are of the same rank is left out.
pub fn quality_duplicates(catalog: &Catalog) -> (found: Vec<QualityGroup>)
    ensures
        quality_views(found@) == quality_groups(catalog@.tracks),
{
    let groups = find_duplicates(catalog);
    let ghost gv = group_views(groups@);
    let mut found: Vec<QualityGroup> = Vec::new();
    let mut n: usize = 0;
    assert(quality_views(found@) =~= quality_upto(gv, 0));
    while n < groups.len()
        invariant
            n <= groups.len(),
            gv == group_views(groups@),
            quality_views(found@) == quality_upto(gv, n as int),
        decreases groups.len() - n,
    {
        let ghost found_before = found@;
        let g = &groups[n];
        assert(gv[n as int] == g@);
        let listing = rank_by_quality(&g.paths);
        if listing.len() > 1 && listing[0].rank < listing[1].rank {
            assert(rated_views(listing@)[0] == listing@[0]@);
            assert(rated_views(listing@)[1] == listing@[1]@);
            let q = QualityGroup { artist: g.artist.clone(), title: g.title.clone(), members: listing };
            found.push(q);
            assert(quality_views(found@) =~= quality_views(found_before).push(q@));
        } else {
            if listing.len() > 1 {
                assert(rated_views(listing@)[0] == listing@[0]@);
                assert(rated_views(listing@)[1] == listing@[1]@);
            }
        }
        n += 1;
    }
    found
}

/// Carries out the choice for a group of duplicates. Where the choice names
/// a file of the group, every other track with the group's artist and title
/// leaves the catalog, and the result holds their paths: the files to delete.
/// Otherwise nothing changes.
pub fn resolve_duplicates(catalog: &mut Catalog, group: &DuplicateGroup, choice: Keep) -> (removed:
    Vec<String>)
    requires
        old(catalog)@.wf(),
    ensures
        final(catalog)@.wf(),
        final(catalog)@.tracks == resolved(old(catalog)@.tracks, group@, choice),
        final(catalog)@.playlists == old(catalog)@.playlists,
        string_views(removed@) == discarded(old(catalog)@.tracks, group@, choice),
{
    match choice {
        Keep::Path(i) => {
            if i < group.paths.len() {
                assert(group@.paths[i as int] == group.paths@[i as int]@);
                catalog.delete_tracks_by_artist_title(
                    group.artist.as_str(),
                    group.title.as_str(),
                    group.paths[i].as_str(),
                )
            } else {
                let none: Vec<String> = Vec::new();
                assert(string_views(none@) =~= Seq::<Seq<char>>::empty());
                none
            }
        },
        Keep::Skip => {
            let none: Vec<String> = Vec::new();
            assert(string_views(none@) =~= Seq::<Seq<char>>::empty());
            none
        },
    }
}

/// The first track with the artist and title of the track at index `i`.
proof fn first_with_key(tracks: Seq<TrackView>, i: int) -> (f: int)
    requires
        0 <= i < tracks.len(),
    ensures
        0 <= f <= i,
        is_by(tracks[f], tracks[i].artist, tracks[i].title),
        is_first_of_key(tracks, f),
    decreases i,
{
    if is_first_of_key(tracks, i) {
        i
    } else {
        let j = choose|j: int|
            0 <= j < i && is_by(#[trigger] tracks[j], tracks[i].artist, tracks[i].title);
        first_with_key(tracks, j)
    }
}

/// The group of a leading track among the first `n` is among the groups of
/// the first `n`.
proof fn leader_is_listed(tracks: Seq<TrackView>, k: int, n: int)
    requires
        leads_group(tracks, k),
        k < n <= tracks.len(),
    ensures
        groups_upto(tracks, n).contains(group_of(tracks, tracks[k].artist, tracks[k].title)),
    decreases n,
{
    let rest = groups_upto(tracks, n - 1);
    let now = groups_upto(tracks, n);
    let g = group_of(tracks, tracks[k].artist, tracks[k].title);
    if k < n - 1 {
        leader_is_listed(tracks, k, n - 1);
        let at = choose|at: int| 0 <= at < rest.len() && rest[at] == g;
        assert(now[at] == g);
    } else {
        assert(now[rest.len() as int] == g);
    }
}

/// Each group among the groups of the first `n` tracks is that of a leading
/// track among them.
proof fn group_has_leader(tracks: Seq<TrackView>, n: int, g: int) -> (k: int)
    requires
        0 <= n <= tracks.len(),
        0 <= g < groups_upto(tracks, n).len(),
    ensures
        0 <= k < n,
        leads_group(tracks, k),
        groups_upto(tracks, n)[g] == group_of(tracks, tracks[k].artist, tracks[k].title),
    decreases n,
{
    let rest = groups_upto(tracks, n - 1);
    if g < rest.len() {
        group_has_leader(tracks, n - 1, g)
    } else {
        n - 1
    }
}

/// Two groups among the groups of the first `n` tracks differ in artist or
/// title.
proof fn groups_differ(tracks: Seq<TrackView>, n: int, g: int, h: int)
    requires
        0 <= n <= tracks.len(),
        0 <= g < h < groups_upto(tracks, n).len(),
    ensures
        groups_upto(tracks, n)[g].artist != groups_upto(tracks, n)[h].artist || groups_upto(
            tracks,
            n,
        )[g].title != groups_upto(tracks, n)[h].title,
    decreases n,
{
    let rest = groups_upto(tracks, n - 1);
    if h < rest.len() {
        groups_differ(tracks, n - 1, g, h);
    } else {
        let k = group_has_leader(tracks, n - 1, g);
        assert(is_first_of_key(tracks, n - 1));
        assert(!is_by(tracks[k], tracks[n - 1].artist, tracks[n - 1].title));
    }
}

/// Every artist and title that two tracks or more share, and that are not
/// empty, has its group in the report, and the group holds all the tracks
/// that have them.
pub proof fn shared_key_is_reported(tracks: Seq<TrackView>, i: int)
    requires
        0 <= i < tracks.len(),
        has_key(tracks[i]),
        members(tracks, tracks[i].artist, tracks[i].title).len() >= 2,
    ensures
        duplicate_groups(tracks).contains(group_of(tracks, tracks[i].artist, tracks[i].title)),
{
    let f = first_with_key(tracks, i);
    leader_is_listed(tracks, f, tracks.len() as int);
}

/// Every group of the report is that of an artist and title that are not
/// empty and that two tracks or more share, and holds all the tracks that
/// have them; no artist and title have two groups.
pub proof fn report_holds_shared_keys_only(tracks: Seq<TrackView>, g: int)
    requires
        0 <= g < duplicate_groups(tracks).len(),
    ensures
        duplicate_groups(tracks)[g].artist.len() > 0,
        duplicate_groups(tracks)[g].title.len() > 0,
        duplicate_groups(tracks)[g].paths.len() >= 2,
        duplicate_groups(tracks)[g] == group_of(
            tracks,
            duplicate_groups(tracks)[g].artist,
            duplicate_groups(tracks)[g].title,
        ),
        forall|h: int|
            0 <= h < duplicate_groups(tracks).len() && h != g ==> (#[trigger] duplicate_groups(
                tracks,
            )[h]).artist != duplicate_groups(tracks)[g].artist || duplicate_groups(tracks)[h].title
                != duplicate_groups(tracks)[g].title,
{
    let n = tracks.len() as int;
    let k = group_has_leader(tracks, n, g);
    let groups = duplicate_groups(tracks);
    assert forall|h: int| 0 <= h < groups.len() && h != g implies (#[trigger] groups[h]).artist
        != groups[g].artist || groups[h].title != groups[g].title by {
        if h < g {
            groups_differ(tracks, n, h, g);
        } else {
            groups_differ(tracks, n, g, h);
        }
    }
}

/// No more paths are rated than there are.
proof fn rated_is_no_longer(paths: Seq<Seq<char>>, n: int)
    requires
        0 <= n <= paths.len(),
    ensures
        rated_upto(paths, n).len() <= n,
    decreases n,
{
    if n > 0 {
        rated_is_no_longer(paths, n - 1);
    }
}

/// The listing by quality never goes from a worse format to a better one:
/// its first file is of the best format, and the one after it is the
/// runner-up.
pub proof fn listing_has_best_first(paths: Seq<Seq<char>>, a: int, b: int)
    requires
        paths.len() <= usize::MAX,
        0 <= a <= b < by_quality(paths).len(),
    ensures
        by_quality(paths)[a].rank <= by_quality(paths)[b].rank,
{
    let rated = rated_upto(paths, paths.len() as int);
    rated_is_no_longer(paths, paths.len() as int);
    stable_order_is_sorted(ranks_of(rated), false, a, b);
}

/// A group with a better file among the first `n` groups is among the
/// quality groups of the first `n`.
proof fn better_is_listed(groups: Seq<GroupView>, m: int, n: int)
    requires
        0 <= m < n <= groups.len(),
        has_better(by_quality(groups[m].paths)),
    ensures
        quality_upto(groups, n).contains(quality_of(groups[m])),
    decreases n,
{
    let rest = quality_upto(groups, n - 1);
    let now = quality_upto(groups, n);
    if m < n - 1 {
        better_is_listed(groups, m, n - 1);
        let at = choose|at: int| 0 <= at < rest.len() && rest[at] == quality_of(groups[m]);
        assert(now[at] == quality_of(groups[m]));
    } else {
        assert(now[rest.len() as int] == quality_of(groups[m]));
    }
}

/// Each quality group of the first `n` groups is one of those groups, and
/// has a better file.
proof fn listed_is_better(groups: Seq<GroupView>, n: int, q: int) -> (m: int)
    requires
        0 <= n <= groups.len(),
        0 <= q < quality_upto(groups, n).len(),
    ensures
        0 <= m < n,
        has_better(by_quality(groups[m].paths)),
        quality_upto(groups, n)[q] == quality_of(groups[m]),
    decreases n,
{
    let rest = quality_upto(groups, n - 1);
    if q < rest.len() {
        listed_is_better(groups, n - 1, q)
    } else {
        n - 1
    }
}

/// A group of duplicates is in the quality report if and only if its best
/// file is of a better format than the runner-up.
pub proof fn quality_report_holds_the_better(tracks: Seq<TrackView>, g: int)
    requires
        0 <= g < duplicate_groups(tracks).len(),
    ensures
        quality_groups(tracks).contains(quality_of(duplicate_groups(tracks)[g])) <==> has_better(
            by_quality(duplicate_groups(tracks)[g].paths),
        ),
{
    let groups = duplicate_groups(tracks);
    let n = groups.len() as int;
    let report = quality_groups(tracks);
    if has_better(by_quality(groups[g].paths)) {
        better_is_listed(groups, g, n);
    }
    if report.contains(quality_of(groups[g])) {
        let q = choose|q: int| 0 <= q < report.len() && report[q] == quality_of(groups[g]);
        let m = listed_is_better(groups, n, q);
        assert(quality_of(groups[m]).members == quality_of(groups[g]).members);
    }
}

/// When a file of a group is chosen to be kept, exactly the other tracks with
/// the group's artist and title leave the catalog: the kept track stays, and
/// so does every track with another artist or title.
pub proof fn resolving_takes_out_the_others_only(
    tracks: Seq<TrackView>,
    g: GroupView,
    i: usize,
    t: TrackView,
)
    requires
        i < g.paths.len(),
    ensures
        resolved(tracks, g, Keep::Path(i)).contains(t) <==> tracks.contains(t) && !is_rival(
            t,
            g.artist,
            g.title,
            g.paths[i as int],
        ),
{
    let keep = g.paths[i as int];
    let pred = no_rival_of(g.artist, g.title, keep);
    let left = tracks.filter(pred);
    if left.contains(t) {
        let k = choose|k: int| 0 <= k < left.len() && left[k] == t;
        let j = filter_source(tracks, pred, k);
        assert(tracks[j] == t);
    }
    if tracks.contains(t) && !is_rival(t, g.artist, g.title, keep) {
        let j = choose|j: int| 0 <= j < tracks.len() && tracks[j] == t;
        tracks.lemma_filter_contains(pred, j);
    }
}

} // verus!
