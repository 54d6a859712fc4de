//! Figures about the catalog: how many tracks, artists and albums it holds,
//! how long they play, and the durations that are still to be found out.

use crate::catalog::{
    paths_of, selected, track_views, with_paths, without_paths, Catalog, FilterView, Track,
    TrackFilter, TrackView,
};
use crate::seqs::take_next;
use crate::text::string_views;
use vstd::prelude::*;

verus! {

/// The artists of the tracks, in order.
pub open spec fn artists_of(tracks: Seq<TrackView>) -> Seq<Seq<char>> {
    tracks.map_values(|t: TrackView| t.artist)
}

/// The albums of the tracks, in order.
pub open spec fn albums_of(tracks: Seq<TrackView>) -> Seq<Seq<char>> {
    tracks.map_values(|t: TrackView| t.album)
}

/// The sum of the durations of the first `n` tracks.
pub open spec fn seconds_upto(tracks: Seq<TrackView>, n: int) -> nat
    decreases n,
{
    if n <= 0 || n > tracks.len() {
        0
    } else {
        seconds_upto(tracks, n - 1) + tracks[n - 1].duration
    }
}

/// The sum of the durations of the tracks.
pub open spec fn total_seconds(tracks: Seq<TrackView>) -> nat {
    seconds_upto(tracks, tracks.len() as int)
}

/// The figures of a catalog.
#[derive(Debug, Clone, Copy, PartialEq, Eq)]
pub struct Totals {
    /// The number of tracks.
    pub tracks: usize,
    /// The number of different artists; the empty artist counts as one.
    pub artists: usize,
    /// The number of different albums; the empty album counts as one.
    pub albums: usize,
    /// The sum of the durations, in seconds.
    pub seconds: u128,
}

/// The unit in which a length of time is shown.
#[derive(Debug, Clone, Copy, PartialEq, Eq)]
pub enum TimeUnit {
    Seconds,
    Minutes,
    Hours,
    Days,
    Weeks,
    Months,
}

/// The seconds of a minute.
pub const MINUTE: u64 = 60;

/// The seconds of an hour.
pub const HOUR: u64 = 3_600;

/// The seconds of a day.
pub const DAY: u64 = 86_400;

/// The seconds of a week.
pub const WEEK: u64 = 604_800;

/// The seconds of a month of thirty days.
pub const MONTH: u64 = 2_592_000;

/// The greatest unit of which the time is more than one.
pub open spec fn unit_of(seconds: nat) -> TimeUnit {
    if seconds > MONTH {
        TimeUnit::Months
    } else if seconds > WEEK {
        TimeUnit::Weeks
    } else if seconds > DAY {
        TimeUnit::Days
    } else if seconds > HOUR {
        TimeUnit::Hours
    } else if seconds > MINUTE {
        TimeUnit::Minutes
    } else {
        TimeUnit::Seconds
    }
}

/// The seconds of one unit.
pub open spec fn length_of(unit: TimeUnit) -> u64 {
    match unit {
        TimeUnit::Seconds => 1,
        TimeUnit::Minutes => MINUTE,
        TimeUnit::Hours => HOUR,
        TimeUnit::Days => DAY,
        TimeUnit::Weeks => WEEK,
        TimeUnit::Months => MONTH,
    }
}

/// The whole seconds of `ticks` ticks of `numer / denom` seconds each, as a
/// 64-bit number holds them.
pub open spec fn whole_seconds(numer: u32, denom: u32, ticks: u64) -> int {
    ((ticks as int * numer as int) / (denom as int)) % 0x1_0000_0000_0000_0000
}

/// The duration of a stream in seconds, from its time base (numerator and
/// denominator of the length of one tick) and its number of ticks. It is 0,
/// which stands for a duration that is not known, where one of the two is
/// absent, where the time base has a zero, and where the seconds do not fit a
/// signed 64-bit number.
pub open spec fn stream_seconds(time_base: Option<(u32, u32)>, ticks: Option<u64>) -> int {
    match (time_base, ticks) {
        (Some((numer, denom)), Some(n)) => if numer > 0 && denom > 0 && whole_seconds(
            numer,
            denom,
            n,
        ) <= i64::MAX {
            whole_seconds(numer, denom, n)
        } else {
            0
        },
        _ => 0,
    }
}

/// Calls `TimeBase::calc_time` of symphonia on a time base with this
/// numerator and denominator, and hands back the seconds of the result: the
/// whole part of `ticks * numer / denom`, which wraps where it does not fit.
/// The call panics on a zero in the time base.
#[verifier::external_body]
fn calc_seconds(numer: u32, denom: u32, ticks: u64) -> (seconds: u64)
    requires
        numer > 0,
        denom > 0,
    ensures
        seconds == whole_seconds(numer, denom, ticks),
{
    symphonia::core::units::TimeBase { numer, denom }.calc_time(ticks).seconds
}

/// The duration of a stream in seconds, 0 where it cannot be told.
pub fn duration_seconds(time_base: Option<(u32, u32)>, ticks: Option<u64>) -> (seconds: u64)
    ensures
        seconds == stream_seconds(time_base, ticks),
{
    match (time_base, ticks) {
        (Some((numer, denom)), Some(n)) => {
            if numer > 0 && denom > 0 {
                let s = calc_seconds(numer, denom, n);
                if s <= 0x7FFF_FFFF_FFFF_FFFF {
                    s
                } else {
                    0
                }
            } else {
                0
            }
        },
        _ => 0,
    }
}

/// The number of different texts among `texts`.
fn count_distinct(texts: &Vec<String>) -> (count: usize)
    ensures
        count == string_views(texts@).to_set().len(),
{
    let ghost tv = string_views(texts@);
    let mut count: usize = 0;
    let mut i: usize = 0;
    assert(tv.take(0) =~= Seq::<Seq<char>>::empty());
    assert(tv.take(0).to_set() =~= Set::<Seq<char>>::empty());
    while i < texts.len()
        invariant
            i <= texts.len(),
            tv == string_views(texts@),
            count <= i,
            count == tv.take(i as int).to_set().len(),
        decreases texts.len() - i,
    {
        let mut seen = false;
        let mut j: usize = 0;
        while j < i && !seen
            invariant
                j <= i < texts.len(),
                tv == string_views(texts@),
                seen ==> tv.take(i as int).contains(tv[i as int]),
                !seen ==> forall|k: int| 0 <= k < j ==> tv[k] != tv[i as int],
            decreases i - j + if seen { 0int } else { 1int },
        {
            if texts[j] == texts[i] {
                assert(tv.take(i as int)[j as int] == tv[i as int]);
                seen = true;
            } else {
                j += 1;
            }
        }
        proof {
            let head = tv.take(i as int);
            take_next(tv, i as int);
            head.lemma_push_to_set_commute(tv[i as int]);
            vstd::seq_lib::seq_to_set_is_finite(head);
            if !seen {
                assert(!head.contains(tv[i as int])) by {
                    if head.contains(tv[i as int]) {
                        let k = choose|k: int| 0 <= k < head.len() && head[k] == tv[i as int];
                        assert(tv[k] == tv[i as int]);
                    }
                }
            }
        }
        if !seen {
            count += 1;
        }
        i += 1;
    }
    assert(tv.take(tv.len() as int) =~= tv);
    count
}

/// The figures of the catalog.
pub fn library_totals(catalog: &Catalog) -> (totals: Totals)
    ensures
        totals.tracks == catalog@.tracks.len(),
        totals.artists == artists_of(catalog@.tracks).to_set().len(),
        totals.albums == albums_of(catalog@.tracks).to_set().len(),
        totals.seconds == total_seconds(catalog@.tracks),
{
    let tracks = catalog.tracks();
    let ghost all = track_views(tracks@);
    let mut artists: Vec<String> = Vec::new();
    let mut albums: Vec<String> = Vec::new();
    let mut seconds: u128 = 0;
    let mut i: usize = 0;
    while i < tracks.len()
        invariant
            i <= tracks.len(),
            all == track_views(tracks@),
            string_views(artists@) == artists_of(all).take(i as int),
            string_views(albums@) == albums_of(all).take(i as int),
            seconds == seconds_upto(all, i as int),
            seconds <= i * 0xFFFF_FFFF_FFFF_FFFF,
        decreases tracks.len() - i,
    {
        let ghost artists_before = artists@;
        let ghost albums_before = albums@;
        artists.push(tracks[i].artist.clone());
        albums.push(tracks[i].album.clone());
        assert(all[i as int] == tracks@[i as int]@);
        assert(string_views(artists@) =~= string_views(
            artists_before,
        ).push(all[i as int].artist));
        assert(artists_of(all).take(i + 1) =~= artists_of(all).take(i as int).push(
            all[i as int].artist,
        ));
        assert(string_views(albums@) =~= string_views(albums_before).push(
            all[i as int].album,
        ));
        assert(albums_of(all).take(i + 1) =~= albums_of(all).take(i as int).push(
            all[i as int].album,
        ));
        seconds = seconds + tracks[i].duration as u128;
        i += 1;
    }
    assert(artists_of(all).take(all.len() as int) =~= artists_of(all));
    assert(albums_of(all).take(all.len() as int) =~= albums_of(all));
    Totals {
        tracks: tracks.len(),
        artists: count_distinct(&artists),
        albums: count_distinct(&albums),
        seconds,
    }
}

/// The greatest unit of which the time is more than one, and the seconds of
/// that unit: the time is shown as so many of it.
pub fn time_unit(seconds: u128) -> (shown: (TimeUnit, u64))
    ensures
        shown.0 == unit_of(seconds as nat),
        shown.1 == length_of(shown.0),
{
    if seconds > MONTH as u128 {
        (TimeUnit::Months, MONTH)
    } else if seconds > WEEK as u128 {
        (TimeUnit::Weeks, WEEK)
    } else if seconds > DAY as u128 {
        (TimeUnit::Days, DAY)
    } else if seconds > HOUR as u128 {
        (TimeUnit::Hours, HOUR)
    } else if seconds > MINUTE as u128 {
        (TimeUnit::Minutes, MINUTE)
    } else {
        (TimeUnit::Seconds, 1)
    }
}

/// The track has this path and no known duration.
pub open spec fn awaits_duration(t: TrackView, path: Seq<char>) -> bool {
    t.path == path && t.duration == 0
}

/// Some track has this path and no known duration.
pub open spec fn has_unknown(tracks: Seq<TrackView>, path: Seq<char>) -> bool {
    exists|i: int| 0 <= i < tracks.len() && awaits_duration(#[trigger] tracks[i], path)
}

/// The track with the duration filled in where it has this path and no known
/// duration.
pub open spec fn filled(t: TrackView, path: Seq<char>, seconds: nat) -> TrackView {
    if awaits_duration(t, path) {
        TrackView { duration: seconds, ..t }
    } else {
        t
    }
}

/// The tracks with the duration filled in for the track at `path`, if its
/// duration is not known.
pub open spec fn with_filled(tracks: Seq<TrackView>, path: Seq<char>, seconds: nat) -> Seq<
    TrackView,
> {
    tracks.map_values(|t: TrackView| filled(t, path, seconds))
}

/// The start of a pass over the figures. The tracks whose paths are among
/// `missing` leave the catalog, as at the start of a scan. The result holds
/// the paths of the tracks taken out, and the tracks that are left without a
/// known duration: those whose files are to be probed.
pub fn start_stats_pass(catalog: &mut Catalog, missing: &Vec<String>) -> (pass: (
    Vec<String>,
    Vec<Track>,
))
    requires
        old(catalog)@.wf(),
    ensures
        final(catalog)@.wf(),
        final(catalog)@.playlists == old(catalog)@.playlists,
        final(catalog)@.tracks == without_paths(old(catalog)@.tracks, string_views(missing@)),
        string_views(pass.0@) == paths_of(
            with_paths(old(catalog)@.tracks, string_views(missing@)),
        ),
        track_views(pass.1@) == selected(final(catalog)@.tracks, FilterView::WithoutDuration),
{
    let removed = catalog.prune_missing_tracks(missing);
    let unknown = catalog.query_tracks(&TrackFilter::WithoutDuration);
    (removed, unknown)
}

/// Records the duration that was found out for the track at `path`. Only a
/// duration that is not known is filled in: a duration of 0 says that nothing
/// was found out and changes nothing, and a track whose duration is known
/// keeps it. The result says whether a track was given the duration.
pub fn record_duration(catalog: &mut Catalog, path: &str, seconds: u64) -> (recorded: bool)
    requires
        old(catalog)@.wf(),
    ensures
        final(catalog)@.wf(),
        recorded == (seconds > 0 && has_unknown(old(catalog)@.tracks, path@)),
        final(catalog)@.tracks == if seconds > 0 {
            with_filled(old(catalog)@.tracks, path@, seconds as nat)
        } else {
            old(catalog)@.tracks
        },
        final(catalog)@.playlists == old(catalog)@.playlists,
{
    let ghost before = catalog@.tracks;
    if seconds == 0 {
        return false;
    }
    let found = catalog.track_at(path);
    let unknown = match &found {
        Some(t) => t.duration == 0,
        None => false,
    };
    proof {
        // a track at `path` is the one that was found, since no path stands twice
        assert forall|k: int| 0 <= k < before.len() && (#[trigger] before[k]).path == path@ implies (
        before[k].duration == 0) == unknown by {
            let t = found->0@;
            let a = choose|a: int| 0 <= a < before.len() && before[a] == t;
            if a < k {
                assert(before[a].path != before[k].path);
            } else if k < a {
                assert(before[k].path != before[a].path);
            }
        }
    }
    if unknown {
        let recorded = catalog.update_track_duration(path, seconds);
        proof {
            let t = found->0@;
            let a = choose|a: int| 0 <= a < before.len() && before[a] == t;
            assert(awaits_duration(before[a], path@));
            assert(catalog@.tracks =~= with_filled(before, path@, seconds as nat));
        }
        recorded
    } else {
        assert(catalog@.tracks =~= with_filled(before, path@, seconds as nat));
        false
    }
}

} // verus!
