//! The repair of playlist references whose files are gone: the name by which
//! a missing file is looked for, the tracks that are offered in its place,
//! the decision between taking the best of them and asking, and what becomes
//! of the playlist.

use crate::catalog::{holds, track_views, Track, TrackView};
use crate::paths::{file_name, file_stem, name_of, stem_of};
use crate::playlist::{
    playlist_references, reference_views, references, update_playlist_line, updated, EditView,
    LineEdit,
};
use crate::similarity::{
    best_candidates, candidate_views, suggest, Candidate, CandidateView, AUTO_REPLACE, SUGGESTIONS,
};
use crate::text::{
    chars_of, find, find_from, slice, string_of, string_view, string_views, text_view,
};
use vstd::prelude::*;

verus! {

/// The separator between artist and title in a file name.
pub open spec fn dash() -> Seq<char> {
    seq![' ', '-', ' ']
}

/// The same separator written with a full-width hyphen-minus.
pub open spec fn wide_dash() -> Seq<char> {
    seq![' ', '\u{FF0D}', ' ']
}

/// What stands in `s` between the first `sep` and the next one, or the end
/// of `s`. Nothing where `s` holds no `sep`.
pub open spec fn second_part(s: Seq<char>, sep: Seq<char>) -> Option<Seq<char>> {
    let i = find_from(s, sep, 0);
    if i < 0 {
        None
    } else {
        let start = i + sep.len();
        let j = find_from(s, sep, start);
        if j < 0 {
            Some(s.subrange(start, s.len() as int))
        } else {
            Some(s.subrange(start, j))
        }
    }
}

/// The song name in a file name of the shape `<artist> - <title>`: the
/// extension is set aside, and the name is what follows the first separator,
/// up to the next one. The plain separator is looked for first, then the
/// full-width one.
pub open spec fn song_name(filename: Seq<char>) -> Option<Seq<char>> {
    match file_stem(filename) {
        None => None,
        Some(stem) => match second_part(stem, dash()) {
            Some(t) => Some(t),
            None => second_part(stem, wide_dash()),
        },
    }
}

/// The text by which a missing file is looked for among the tracks: the song
/// name in its file name, or the whole file name where that has no song name.
/// A path that names no file has no such text.
pub open spec fn comparison_key(target: Seq<char>) -> Option<Seq<char>> {
    match file_name(target) {
        None => None,
        Some(name) => match song_name(name) {
            Some(s) => Some(s),
            None => Some(name),
        },
    }
}

/// What is to happen with a reference whose file is gone.
#[derive(Debug, PartialEq, Eq, Clone, Copy)]
pub enum Decision {
    /// No track is offered: the line stays.
    Unresolved,
    /// The best candidate is similar enough to be taken without asking.
    AutoReplace,
    /// The candidates are put before whoever decides.
    Ask,
}

/// The decision for these candidates, the best first.
pub open spec fn decision(candidates: Seq<CandidateView>) -> Decision {
    if candidates.len() == 0 {
        Decision::Unresolved
    } else if candidates[0].score >= AUTO_REPLACE {
        Decision::AutoReplace
    } else {
        Decision::Ask
    }
}

/// What was chosen for a reference whose file is gone.
#[derive(Debug, PartialEq, Eq, Clone, Copy)]
pub enum Choice {
    /// The candidate at this index takes the place of the line.
    Take(usize),
    /// The line is taken out of the playlist.
    Remove,
    /// The line stays as it is. This is also the answer where nobody can be
    /// asked.
    Skip,
}

/// The edit that follows from the candidates and the choice. Where the best
/// candidate is taken without asking, the choice counts for nothing.
pub open spec fn edit_for(candidates: Seq<CandidateView>, choice: Choice) -> Option<EditView> {
    match decision(candidates) {
        Decision::Unresolved => None,
        Decision::AutoReplace => Some(EditView::Replace(candidates[0].path)),
        Decision::Ask => match choice {
            Choice::Take(i) => if i < candidates.len() {
                Some(EditView::Replace(candidates[i as int].path))
            } else {
                None
            },
            Choice::Remove => Some(EditView::Remove),
            Choice::Skip => None,
        },
    }
}

/// The candidates for the missing file at `target`: the five tracks whose
/// titles are most similar to its comparison key, and none where the path
/// names no file.
pub open spec fn candidates_for(tracks: Seq<TrackView>, target: Seq<char>) -> Seq<CandidateView> {
    match comparison_key(target) {
        None => Seq::empty(),
        Some(key) => best_candidates(tracks, key, SUGGESTIONS as nat),
    }
}

/// The text of the playlist after the choice for the missing file at
/// `target` was carried out, or nothing where the text stays as it is.
pub open spec fn settled(
    content: Seq<char>,
    playlist: Seq<char>,
    target: Seq<char>,
    candidates: Seq<CandidateView>,
    choice: Choice,
) -> Option<Seq<char>> {
    match edit_for(candidates, choice) {
        None => None,
        Some(edit) => updated(content, playlist, target, edit),
    }
}

/// How the matter of a reference whose file is gone has ended.
#[derive(Debug, PartialEq, Eq, Clone, Copy)]
pub enum Outcome {
    /// The line now names a track of the catalog.
    Replaced,
    /// The line was taken out of the playlist.
    Removed,
    /// No track was offered: the line stays.
    Unresolved,
    /// Nothing was chosen: the line stays.
    Skipped,
    /// The line was to be rewritten or taken out, but no line of the playlist
    /// stands for the missing file: the playlist stays as it is.
    NotFound,
}

/// How the matter ends for these candidates and this choice.
pub open spec fn outcome_of(
    content: Seq<char>,
    playlist: Seq<char>,
    target: Seq<char>,
    candidates: Seq<CandidateView>,
    choice: Choice,
) -> Outcome {
    match edit_for(candidates, choice) {
        None => if candidates.len() == 0 {
            Outcome::Unresolved
        } else {
            Outcome::Skipped
        },
        Some(edit) => if updated(content, playlist, target, edit) is None {
            Outcome::NotFound
        } else {
            match edit {
                EditView::Replace(_) => Outcome::Replaced,
                EditView::Remove => Outcome::Removed,
            }
        },
    }
}

/// What became of a reference whose file is gone.
#[derive(Debug, Clone, PartialEq, Eq)]
pub struct Settlement {
    pub outcome: Outcome,
    /// The new text of the playlist, where the playlist was changed.
    pub content: Option<String>,
}

/// The choice for the reference at index `i`; where none is given, the line
/// is skipped.
pub open spec fn answer_at(answers: Seq<Choice>, i: int) -> Choice {
    if 0 <= i < answers.len() {
        answers[i]
    } else {
        Choice::Skip
    }
}

/// The text of the playlist after its first `n` references were dealt with,
/// in their order. The references are those of the text as it was at first. A
/// reference whose path is none of `missing` is left alone. For any other the
/// candidates are looked up among the tracks and the choice for it is carried
/// out, on the text as the references before it have left it.
pub open spec fn reconciled_upto(
    content: Seq<char>,
    playlist: Seq<char>,
    tracks: Seq<TrackView>,
    missing: Seq<Seq<char>>,
    answers: Seq<Choice>,
    n: int,
) -> Seq<char>
    decreases n,
{
    let refs = references(content, playlist);
    if n <= 0 || n > refs.len() {
        content
    } else {
        let before = reconciled_upto(content, playlist, tracks, missing, answers, n - 1);
        let target = refs[n - 1].target;
        if missing.contains(target) {
            match settled(
                before,
                playlist,
                target,
                candidates_for(tracks, target),
                answer_at(answers, n - 1),
            ) {
                Some(text) => text,
                None => before,
            }
        } else {
            before
        }
    }
}

/// How the matter of each of the first `n` references ended; nothing for a
/// reference whose file is there.
pub open spec fn outcomes_upto(
    content: Seq<char>,
    playlist: Seq<char>,
    tracks: Seq<TrackView>,
    missing: Seq<Seq<char>>,
    answers: Seq<Choice>,
    n: int,
) -> Seq<Option<Outcome>>
    decreases n,
{
    let refs = references(content, playlist);
    if n <= 0 || n > refs.len() {
        Seq::empty()
    } else {
        let rest = outcomes_upto(content, playlist, tracks, missing, answers, n - 1);
        let before = reconciled_upto(content, playlist, tracks, missing, answers, n - 1);
        let target = refs[n - 1].target;
        if missing.contains(target) {
            rest.push(
                Some(
                    outcome_of(
                        before,
                        playlist,
                        target,
                        candidates_for(tracks, target),
                        answer_at(answers, n - 1),
                    ),
                ),
            )
        } else {
            rest.push(None)
        }
    }
}

/// A playlist after its references were dealt with.
#[derive(Debug, Clone, PartialEq, Eq)]
pub struct Reconciled {
    /// The text of the playlist.
    pub content: String,
    /// For each reference, in order, how its matter ended; nothing for a
    /// reference whose file is there.
    pub outcomes: Vec<Option<Outcome>>,
}

/// The three characters of a separator.
fn separator(middle: char) -> (sep: Vec<char>)
    ensures
        sep@ == seq![' ', middle, ' '],
{
    let mut sep: Vec<char> = Vec::new();
    sep.push(' ');
    sep.push(middle);
    sep.push(' ');
    assert(sep@ =~= seq![' ', middle, ' ']);
    sep
}

/// What stands in `s` between the first `sep` and the next one.
fn part_after(s: &Vec<char>, sep: &Vec<char>) -> (r: Option<Vec<char>>)
    ensures
        text_view(r) == second_part(s@, sep@),
{
    match find(s, sep, 0) {
        None => None,
        Some(i) => {
            let start: usize = i + sep.len();
            match find(s, sep, start) {
                None => Some(slice(s, start, s.len())),
                Some(j) => Some(slice(s, start, j)),
            }
        },
    }
}

/// The song name in a file name of the shape `<artist> - <title>`.
pub fn extract_song_name_from_filename(filename: &str) -> (name: Option<String>)
    ensures
        string_view(name) == song_name(filename@),
{
    let text = chars_of(filename);
    match stem_of(&text) {
        None => None,
        Some(stem) => {
            let plain = separator('-');
            match part_after(&stem, &plain) {
                Some(t) => Some(string_of(&t)),
                None => {
                    let wide = separator('\u{FF0D}');
                    match part_after(&stem, &wide) {
                        Some(t) => Some(string_of(&t)),
                        None => None,
                    }
                },
            }
        },
    }
}

/// The text by which the missing file at `target` is looked for.
pub fn key_of(target: &str) -> (key: Option<String>)
    ensures
        string_view(key) == comparison_key(target@),
{
    let text = chars_of(target);
    match name_of(&text) {
        None => None,
        Some(name) => {
            let shown = string_of(&name);
            match extract_song_name_from_filename(shown.as_str()) {
                Some(s) => Some(s),
                None => Some(shown),
            }
        },
    }
}

/// What is to happen with a reference for which these candidates were found.
pub fn decide(candidates: &Vec<Candidate>) -> (d: Decision)
    ensures
        d == decision(candidate_views(candidates@)),
{
    if candidates.len() == 0 {
        Decision::Unresolved
    } else if candidates[0].score >= AUTO_REPLACE {
        assert(candidate_views(candidates@)[0] == candidates@[0]@);
        Decision::AutoReplace
    } else {
        assert(candidate_views(candidates@)[0] == candidates@[0]@);
        Decision::Ask
    }
}

/// The candidates for the missing file at `target`.
pub fn propose(tracks: &Vec<Track>, target: &str) -> (candidates: Vec<Candidate>)
    ensures
        candidate_views(candidates@) == candidates_for(track_views(tracks@), target@),
{
    match key_of(target) {
        None => {
            let none: Vec<Candidate> = Vec::new();
            assert(candidate_views(none@) =~= Seq::<CandidateView>::empty());
            none
        },
        Some(key) => suggest(tracks, key.as_str()),
    }
}

/// The outcome of an edit, from what the rewriting gave.
fn edit_outcome(edit: &LineEdit, content: Option<String>) -> (s: Settlement)
    ensures
        s.content == content,
        s.outcome == if content is None {
            Outcome::NotFound
        } else {
            match edit@ {
                EditView::Replace(_) => Outcome::Replaced,
                EditView::Remove => Outcome::Removed,
            }
        },
{
    let outcome = if content.is_none() {
        Outcome::NotFound
    } else {
        match edit {
            LineEdit::Replace(_) => Outcome::Replaced,
            LineEdit::Remove => Outcome::Removed,
        }
    };
    Settlement { outcome, content }
}

/// Carries out the choice for the missing file at `target`: the best
/// candidate takes the place of the line where it is similar enough,
/// whatever was chosen; otherwise the chosen candidate does, or the line is
/// taken out, or it stays. The result says how the matter ended, and holds
/// the new text of the playlist where the playlist was changed.
pub fn settle(
    content: &str,
    playlist_path: &str,
    target: &str,
    candidates: &Vec<Candidate>,
    choice: Choice,
) -> (s: Settlement)
    ensures
        s.outcome == outcome_of(
            content@,
            playlist_path@,
            target@,
            candidate_views(candidates@),
            choice,
        ),
        string_view(s.content) == settled(
            content@,
            playlist_path@,
            target@,
            candidate_views(candidates@),
            choice,
        ),
{
    let ghost cv = candidate_views(candidates@);
    let edit: LineEdit = match decide(candidates) {
        Decision::Unresolved => {
            return Settlement { outcome: Outcome::Unresolved, content: None };
        },
        Decision::AutoReplace => {
            assert(cv[0] == candidates@[0]@);
            LineEdit::Replace(candidates[0].path.clone())
        },
        Decision::Ask => match choice {
            Choice::Take(k) => {
                if k < candidates.len() {
                    assert(cv[k as int] == candidates@[k as int]@);
                    LineEdit::Replace(candidates[k].path.clone())
                } else {
                    return Settlement { outcome: Outcome::Skipped, content: None };
                }
            },
            Choice::Remove => LineEdit::Remove,
            Choice::Skip => {
                return Settlement { outcome: Outcome::Skipped, content: None };
            },
        },
    };
    let rewritten = update_playlist_line(content, playlist_path, target, &edit);
    edit_outcome(&edit, rewritten)
}

/// Deals with every reference of a playlist, in the order of its lines.
/// `missing` holds the paths of the references whose files are gone, and
/// `answers` the choice for each reference, by its index among the
/// references; a reference without an answer is skipped. A reference whose
/// file is there is left alone. For one whose file is gone the candidates are
/// looked up among the tracks: the best takes the place of the line if it is
/// similar enough, and otherwise the answer decides.
pub fn reconcile_playlist(
    content: &str,
    playlist_path: &str,
    tracks: &Vec<Track>,
    missing: &Vec<String>,
    answers: &Vec<Choice>,
) -> (done: Reconciled)
    ensures
        done.content@ == reconciled_upto(
            content@,
            playlist_path@,
            track_views(tracks@),
            string_views(missing@),
            answers@,
            references(content@, playlist_path@).len() as int,
        ),
        done.outcomes@ == outcomes_upto(
            content@,
            playlist_path@,
            track_views(tracks@),
            string_views(missing@),
            answers@,
            references(content@, playlist_path@).len() as int,
        ),
{
    let refs = playlist_references(content, playlist_path);
    let ghost rv = references(content@, playlist_path@);
    let ghost tv = track_views(tracks@);
    let ghost gone = string_views(missing@);
    let mut text: String = content.to_owned();
    let mut outcomes: Vec<Option<Outcome>> = Vec::new();
    let mut n: usize = 0;
    assert(outcomes@ =~= outcomes_upto(content@, playlist_path@, tv, gone, answers@, 0));
    while n < refs.len()
        invariant
            n <= refs.len(),
            rv == references(content@, playlist_path@),
            rv == reference_views(refs@),
            tv == track_views(tracks@),
            gone == string_views(missing@),
            text@ == reconciled_upto(content@, playlist_path@, tv, gone, answers@, n as int),
            outcomes@ == outcomes_upto(content@, playlist_path@, tv, gone, answers@, n as int),
        decreases refs.len() - n,
    {
        let ghost outcomes_before = outcomes@;
        assert(rv[n as int] == refs@[n as int]@);
        if holds(missing, &refs[n].target) {
            let target = refs[n].target.as_str();
            let candidates = propose(tracks, target);
            let answer = if n < answers.len() {
                answers[n]
            } else {
                Choice::Skip
            };
            let s = settle(text.as_str(), playlist_path, target, &candidates, answer);
            outcomes.push(Some(s.outcome));
            match s.content {
                Some(t) => {
                    text = t;
                },
                None => {},
            }
        } else {
            outcomes.push(None);
        }
        assert(outcomes@ =~= outcomes_upto(content@, playlist_path@, tv, gone, answers@, n + 1));
        n += 1;
    }
    Reconciled { content: text, outcomes }
}

/// The threshold decides whether anybody is asked. A best candidate whose
/// similarity is 0.9 or more takes the place of the line whatever the choice
/// is. Below that the choice decides: the line stays where the choice is to
/// skip, it goes where the choice is to remove it, and a chosen candidate
/// takes its place.
pub proof fn threshold_decides(candidates: Seq<CandidateView>, choice: Choice)
    requires
        candidates.len() > 0,
    ensures
        candidates[0].score >= AUTO_REPLACE ==> decision(candidates) == Decision::AutoReplace
            && edit_for(candidates, choice) == Some(EditView::Replace(candidates[0].path)),
        candidates[0].score < AUTO_REPLACE ==> decision(candidates) == Decision::Ask && edit_for(
            candidates,
            Choice::Skip,
        ) is None && edit_for(candidates, Choice::Remove) == Some(EditView::Remove) && edit_for(
            candidates,
            Choice::Take(0),
        ) == Some(EditView::Replace(candidates[0].path)),
{
}

} // verus!
