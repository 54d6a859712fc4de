//! Playlists: their entry in the catalog, the references that their lines
//! hold, and the rewriting of a line.
//!
//! A playlist is text in lines. Blank lines and lines that start with `#` say
//! nothing; every other line names a file, by an absolute path or by a path
//! relative to the directory that holds the playlist.

use crate::catalog::{
    distinct_playlists, has_playlist, playlist_paths_of, playlist_upserted, playlists_with,
    playlists_without, prune_of_one_takes_that_playlist, Catalog, PlaylistView,
};
use crate::paths::{
    extension, extension_of, file_stem, is_absolute, join, joined_path,
    joined_path_lies_below, parent_dir, parent_of, relative, relative_components,
    relative_parts, relative_path_is_not_below_root, relative_to, same_parts, starts_here,
    stem_of,
};
use crate::text::{
    chars_of, join_lines, joined, lines, same, slice, split_lines, string_of, string_view,
    string_views, trim, trimmed, views,
};
use vstd::prelude::*;

verus! {

/// The file at `p` is a playlist: its extension is `m3u` or `m3u8`.
pub open spec fn is_playlist_path(p: Seq<char>) -> bool {
    extension(p) == Some(seq!['m', '3', 'u']) || extension(p) == Some(seq!['m', '3', 'u', '8'])
}

/// The name shown for the playlist at `p`: its file name without the
/// extension.
pub open spec fn display_name(p: Seq<char>) -> Seq<char> {
    match file_stem(p) {
        Some(s) => s,
        None => Seq::empty(),
    }
}

/// The playlist at `p` as the catalog holds it.
pub open spec fn playlist_at(p: Seq<char>) -> PlaylistView {
    PlaylistView { name: display_name(p), path: p }
}

/// The playlists after those among the first `n` of `files` were entered.
pub open spec fn playlists_found(playlists: Seq<PlaylistView>, files: Seq<Seq<char>>, n: int) -> Seq<
    PlaylistView,
>
    decreases n,
{
    if n <= 0 || n > files.len() {
        playlists
    } else {
        let rest = playlists_found(playlists, files, n - 1);
        if is_playlist_path(files[n - 1]) {
            playlist_upserted(rest, playlist_at(files[n - 1]))
        } else {
            rest
        }
    }
}

/// The paths among the first `n` of `files` that were entered as new
/// playlists, in their order.
pub open spec fn playlists_added(playlists: Seq<PlaylistView>, files: Seq<Seq<char>>, n: int) -> Seq<
    Seq<char>,
>
    decreases n,
{
    if n <= 0 || n > files.len() {
        Seq::empty()
    } else {
        let rest = playlists_added(playlists, files, n - 1);
        if is_playlist_path(files[n - 1]) && !has_playlist(
            playlists_found(playlists, files, n - 1),
            files[n - 1],
        ) {
            rest.push(files[n - 1])
        } else {
            rest
        }
    }
}

/// What a pass over the playlists changed in the catalog.
#[derive(Debug, Clone, PartialEq, Eq)]
pub struct PlaylistPass {
    /// The paths of the playlists that were taken out, their files being gone.
    pub removed: Vec<String>,
    /// The paths of the playlists that were entered.
    pub added: Vec<String>,
}

/// The line names a file: trimmed, it is not empty and does not start with
/// `#`.
pub open spec fn is_reference(line: Seq<char>) -> bool {
    let t = trim(line);
    t.len() > 0 && t[0] != '#'
}

/// A reference of a playlist: the index of its line, and the path that the
/// line stands for.
#[derive(Debug, Clone, PartialEq, Eq)]
pub struct Reference {
    pub line: usize,
    pub target: String,
}

/// What a `Reference` holds, as mathematical values.
pub struct ReferenceView {
    pub line: int,
    pub target: Seq<char>,
}

impl View for Reference {
    type V = ReferenceView;

    open spec fn view(&self) -> ReferenceView {
        ReferenceView { line: self.line as int, target: self.target@ }
    }
}

/// The views of a sequence of references.
pub open spec fn reference_views(v: Seq<Reference>) -> Seq<ReferenceView> {
    v.map_values(|r: Reference| r@)
}

/// The references among the first `n` lines, in the order of the lines. A
/// relative line is resolved against `dir`, an absolute one stands for
/// itself.
pub open spec fn references_upto(ls: Seq<Seq<char>>, dir: Seq<char>, n: int) -> Seq<ReferenceView>
    decreases n,
{
    if n <= 0 || n > ls.len() {
        Seq::empty()
    } else {
        let rest = references_upto(ls, dir, n - 1);
        if is_reference(ls[n - 1]) {
            rest.push(ReferenceView { line: n - 1, target: join(dir, trim(ls[n - 1])) })
        } else {
            rest
        }
    }
}

/// The references of the playlist at `playlist` whose text is `content`.
pub open spec fn references(content: Seq<char>, playlist: Seq<char>) -> Seq<ReferenceView> {
    let ls = lines(content);
    references_upto(ls, parent_dir(playlist), ls.len() as int)
}

/// The line stands for `target`: both are the same path as seen from `dir`,
/// that is, they have the same components there.
pub open spec fn line_matches(line: Seq<char>, dir: Seq<char>, target: Seq<char>) -> bool {
    relative_components(trim(line), dir) == relative_components(target, dir)
}

/// The index of the first line at or after `i` that stands for `target`, or
/// -1.
pub open spec fn first_match(ls: Seq<Seq<char>>, dir: Seq<char>, target: Seq<char>, i: int) -> int
    decreases ls.len() - i,
{
    if i < 0 || i >= ls.len() {
        -1
    } else if line_matches(ls[i], dir, target) {
        i
    } else {
        first_match(ls, dir, target, i + 1)
    }
}

/// What is done to the line of a reference.
#[derive(Debug, Clone, PartialEq, Eq)]
pub enum LineEdit {
    /// The line is rewritten to name this path.
    Replace(String),
    /// The line is taken out.
    Remove,
}

/// A `LineEdit` as a mathematical value.
pub enum EditView {
    Replace(Seq<char>),
    Remove,
}

impl View for LineEdit {
    type V = EditView;

    open spec fn view(&self) -> EditView {
        match self {
            LineEdit::Replace(p) => EditView::Replace(p@),
            LineEdit::Remove => EditView::Remove,
        }
    }
}

/// The lines with the edit made at index `i`. A new path is written as seen
/// from `dir`.
pub open spec fn edited(ls: Seq<Seq<char>>, dir: Seq<char>, i: int, edit: EditView) -> Seq<
    Seq<char>,
> {
    match edit {
        EditView::Replace(p) => ls.update(i, relative_to(p, dir)),
        EditView::Remove => ls.remove(i),
    }
}

/// The text of the playlist at `playlist` after the edit of the first line
/// that stands for `target`: every other line is kept as it is, and the
/// lines are joined by line feeds. Nothing where no line stands for `target`.
pub open spec fn updated(
    content: Seq<char>,
    playlist: Seq<char>,
    target: Seq<char>,
    edit: EditView,
) -> Option<Seq<char>> {
    let ls = lines(content);
    let dir = parent_dir(playlist);
    let i = first_match(ls, dir, target, 0);
    if i < 0 {
        None
    } else {
        Some(join_lines(edited(ls, dir, i, edit)))
    }
}

/// Whether the file at `path` is a playlist.
pub fn is_playlist_file(path: &str) -> (r: bool)
    ensures
        r == is_playlist_path(path@),
{
    match extension_of(&chars_of(path)) {
        None => false,
        Some(e) => {
            let mut m3u: Vec<char> = Vec::new();
            m3u.push('m');
            m3u.push('3');
            m3u.push('u');
            assert(m3u@ =~= seq!['m', '3', 'u']);
            if same(&e, &m3u) {
                return true;
            }
            m3u.push('8');
            assert(m3u@ =~= seq!['m', '3', 'u', '8']);
            assert(seq!['m', '3', 'u'].len() != seq!['m', '3', 'u', '8'].len());
            same(&e, &m3u)
        },
    }
}

/// The name shown for the playlist at `path`.
pub fn playlist_name(path: &str) -> (name: String)
    ensures
        name@ == display_name(path@),
{
    match stem_of(&chars_of(path)) {
        Some(s) => string_of(&s),
        None => String::new(),
    }
}

/// One pass over the playlists of the catalog. The playlists whose paths are
/// among `missing` are taken out; then every file of `files` that is a
/// playlist is entered under its path and the name of its file, unless the
/// catalog holds that path already. The tracks stay as they are.
pub fn index_playlists(catalog: &mut Catalog, missing: &Vec<String>, files: &Vec<String>) -> (pass:
    PlaylistPass)
    requires
        old(catalog)@.wf(),
    ensures
        final(catalog)@.wf(),
        final(catalog)@.tracks == old(catalog)@.tracks,
        final(catalog)@.playlists == playlists_found(
            playlists_without(old(catalog)@.playlists, string_views(missing@)),
            string_views(files@),
            files@.len() as int,
        ),
        string_views(pass.removed@) == playlist_paths_of(
            playlists_with(old(catalog)@.playlists, string_views(missing@)),
        ),
        string_views(pass.added@) == playlists_added(
            playlists_without(old(catalog)@.playlists, string_views(missing@)),
            string_views(files@),
            files@.len() as int,
        ),
{
    let removed = catalog.prune_missing_playlists(missing);
    let ghost start = catalog@.playlists;
    let ghost fv = string_views(files@);
    let mut added: Vec<String> = Vec::new();
    let mut n: usize = 0;
    assert(string_views(added@) =~= playlists_added(start, fv, 0));
    while n < files.len()
        invariant
            n <= files.len(),
            fv == string_views(files@),
            catalog@.wf(),
            catalog@.tracks == old(catalog)@.tracks,
            catalog@.playlists == playlists_found(start, fv, n as int),
            string_views(added@) == playlists_added(start, fv, n as int),
        decreases files.len() - n,
    {
        let ghost added_before = added@;
        let path = files[n].as_str();
        assert(fv[n as int] == path@);
        if is_playlist_file(path) {
            let name = playlist_name(path);
            if catalog.upsert_playlist(name.as_str(), path) {
                added.push(files[n].clone());
                assert(string_views(added@) =~= string_views(added_before).push(path@));
            }
        }
        n += 1;
    }
    PlaylistPass { removed, added }
}

/// Whether the line names a file.
fn names_file(line: &Vec<char>) -> (r: bool)
    ensures
        r == (line@.len() > 0 && line@[0] != '#'),
{
    line.len() > 0 && line[0] != '#'
}

/// The references of the playlist at `playlist_path` whose text is `content`.
pub fn playlist_references(content: &str, playlist_path: &str) -> (refs: Vec<Reference>)
    ensures
        reference_views(refs@) == references(content@, playlist_path@),
{
    let text = chars_of(content);
    let ls = split_lines(&text);
    let dir = parent_of(&chars_of(playlist_path));
    let ghost lv = views(ls@);
    let mut refs: Vec<Reference> = Vec::new();
    let mut n: usize = 0;
    assert(reference_views(refs@) =~= references_upto(lv, dir@, 0));
    while n < ls.len()
        invariant
            n <= ls.len(),
            lv == views(ls@),
            reference_views(refs@) == references_upto(lv, dir@, n as int),
        decreases ls.len() - n,
    {
        let ghost refs_before = refs@;
        let t = trimmed(&ls[n]);
        assert(lv[n as int] == ls@[n as int]@);
        if names_file(&t) {
            let target = joined_path(&dir, &t);
            let r = Reference { line: n, target: string_of(&target) };
            refs.push(r);
            assert(reference_views(refs@) =~= reference_views(refs_before).push(r@));
        }
        n += 1;
    }
    refs
}

/// Appends copies of the lines `ls[lo..hi]` to `out`.
fn copy_lines(out: &mut Vec<Vec<char>>, ls: &Vec<Vec<char>>, lo: usize, hi: usize)
    requires
        lo <= hi <= ls.len(),
    ensures
        views(final(out)@) == views(old(out)@) + views(ls@).subrange(lo as int, hi as int),
{
    let mut k: usize = lo;
    assert(views(out@) =~= views(old(out)@) + views(ls@).subrange(lo as int, lo as int));
    while k < hi
        invariant
            lo <= k <= hi <= ls.len(),
            views(out@) == views(old(out)@) + views(ls@).subrange(lo as int, k as int),
        decreases hi - k,
    {
        let ghost out_before = out@;
        let line = slice(&ls[k], 0, ls[k].len());
        assert(line@ =~= ls@[k as int]@);
        out.push(line);
        assert(views(out@) =~= views(out_before).push(ls@[k as int]@));
        assert(views(ls@).subrange(lo as int, k + 1) =~= views(ls@).subrange(lo as int, k as int).push(
            ls@[k as int]@,
        ));
        k += 1;
    }
}

/// Rewrites or takes out the first line of a playlist that stands for
/// `target`, and hands back the new text of the playlist. A line stands for
/// `target` when both are the same path as seen from the directory of the
/// playlist, so that a relative line is found by the absolute path of its
/// file. Every other line is kept as it is. Where no line stands for
/// `target`, the result is `None` and the playlist stays as it is.
pub fn update_playlist_line(content: &str, playlist_path: &str, target: &str, edit: &LineEdit) -> (out:
    Option<String>)
    ensures
        string_view(out) == updated(content@, playlist_path@, target@, edit@),
{
    let ls = split_lines(&chars_of(content));
    let dir = parent_of(&chars_of(playlist_path));
    let wanted = relative_parts(&chars_of(target), &dir);
    let ghost lv = views(ls@);
    let mut hit: Option<usize> = None;
    let mut k: usize = 0;
    while hit.is_none() && k < ls.len()
        invariant
            k <= ls.len(),
            lv == views(ls@),
            views(wanted@) == relative_components(target@, dir@),
            match hit {
                Some(h) => h < ls.len() && first_match(lv, dir@, target@, 0) == h,
                None => first_match(lv, dir@, target@, k as int) == first_match(lv, dir@, target@, 0),
            },
        decreases ls.len() - k + if hit.is_none() { 1int } else { 0int },
    {
        assert(lv[k as int] == ls@[k as int]@);
        let here = relative_parts(&trimmed(&ls[k]), &dir);
        if same_parts(&here, &wanted) {
            hit = Some(k);
        } else {
            k += 1;
        }
    }
    let i: usize = match hit {
        Some(h) => h,
        None => {
            return None;
        },
    };
    let mut out: Vec<Vec<char>> = Vec::new();
    assert(views(out@) =~= Seq::<Seq<char>>::empty());
    copy_lines(&mut out, &ls, 0, i);
    match edit {
        LineEdit::Replace(p) => {
            let ghost head = out@;
            let line = relative(&chars_of(p.as_str()), &dir);
            out.push(line);
            assert(views(out@) =~= views(head).push(line@));
        },
        LineEdit::Remove => {},
    }
    copy_lines(&mut out, &ls, i + 1, ls.len());
    assert(views(out@) =~= edited(lv, dir@, i as int, edit@));
    Some(string_of(&joined(&out)))
}

/// A line that is written relative to the directory of the playlist stands
/// for the absolute path of its file: the line and the path that it resolves
/// to are the same path as seen from that directory. The line does not start
/// with the name `.`, which is a component of its own at the start of a path
/// and of none inside one.
pub proof fn relative_line_stands_for_its_file(dir: Seq<char>, line: Seq<char>)
    requires
        trim(line).len() > 0,
        !is_absolute(trim(line)),
        !starts_here(trim(line)),
        is_absolute(join(dir, trim(line))),
    ensures
        line_matches(line, dir, join(dir, trim(line))),
{
    let t = trim(line);
    assert(dir.len() > 0);
    assert(join(dir, t)[0] == dir[0]);
    joined_path_lies_below(dir, t);
    relative_path_is_not_below_root(t, dir);
}

/// Where the line at index `i` stands for `target`, the first line that
/// does is found, at `i` or before it.
proof fn first_match_is_found(
    ls: Seq<Seq<char>>,
    dir: Seq<char>,
    target: Seq<char>,
    from: int,
    i: int,
)
    requires
        0 <= from <= i < ls.len(),
        line_matches(ls[i], dir, target),
    ensures
        from <= first_match(ls, dir, target, from) <= i,
        line_matches(ls[first_match(ls, dir, target, from)], dir, target),
    decreases i - from,
{
    if !line_matches(ls[from], dir, target) {
        first_match_is_found(ls, dir, target, from + 1, i);
    }
}

/// The rewriting of a line goes by the path and not by its spelling: a
/// playlist with a line that is written relative to its directory is
/// rewritten when the absolute path of that line's file is looked for.
pub proof fn absolute_target_finds_relative_line(
    content: Seq<char>,
    playlist: Seq<char>,
    i: int,
    edit: EditView,
)
    requires
        0 <= i < lines(content).len(),
        trim(lines(content)[i]).len() > 0,
        !is_absolute(trim(lines(content)[i])),
        !starts_here(trim(lines(content)[i])),
        is_absolute(join(parent_dir(playlist), trim(lines(content)[i]))),
    ensures
        updated(
            content,
            playlist,
            join(parent_dir(playlist), trim(lines(content)[i])),
            edit,
        ) is Some,
{
    let ls = lines(content);
    let dir = parent_dir(playlist);
    relative_line_stands_for_its_file(dir, ls[i]);
    first_match_is_found(ls, dir, join(dir, trim(ls[i])), 0, i);
}

/// Entering files changes nothing where the catalog holds the path of each
/// of them that is a playlist.
proof fn entering_held_playlists_changes_nothing(
    playlists: Seq<PlaylistView>,
    files: Seq<Seq<char>>,
    n: int,
)
    requires
        0 <= n <= files.len(),
        forall|k: int|
            0 <= k < n && is_playlist_path(#[trigger] files[k]) ==> has_playlist(playlists, files[k]),
    ensures
        playlists_found(playlists, files, n) == playlists,
    decreases n,
{
    if n > 0 {
        entering_held_playlists_changes_nothing(playlists, files, n - 1);
        if is_playlist_path(files[n - 1]) {
            assert(has_playlist(playlists, files[n - 1]));
        }
    }
}

/// When the file of one playlist is gone and nothing else has changed, the
/// next pass takes that playlist out of the catalog and leaves every other as
/// it is. That nothing else has changed means that the pass is told of the
/// one path, and that every playlist among the files that it finds is in the
/// catalog, at another path than that one.
pub proof fn pass_after_one_deletion(playlists: Seq<PlaylistView>, i: int, files: Seq<Seq<char>>)
    requires
        distinct_playlists(playlists),
        0 <= i < playlists.len(),
        forall|k: int|
            0 <= k < files.len() && is_playlist_path(#[trigger] files[k]) ==> has_playlist(
                playlists,
                files[k],
            ) && files[k] != playlists[i].path,
    ensures
        playlists_found(
            playlists_without(playlists, seq![playlists[i].path]),
            files,
            files.len() as int,
        ) == playlists.remove(i),
{
    prune_of_one_takes_that_playlist(playlists, i);
    let left = playlists.remove(i);
    assert forall|k: int|
        0 <= k < files.len() && is_playlist_path(#[trigger] files[k]) implies has_playlist(
        left,
        files[k],
    ) by {
        let j = choose|j: int|
            0 <= j < playlists.len() && (#[trigger] playlists[j]).path == files[k];
        if j < i {
            assert(left[j] == playlists[j]);
        } else {
            assert(left[j - 1] == playlists[j]);
        }
    }
    entering_held_playlists_changes_nothing(left, files, files.len() as int);
}

/// A pass enters files that are playlists and no others: every path that it
/// adds has the extension of a playlist.
pub proof fn pass_adds_playlists_only(
    playlists: Seq<PlaylistView>,
    files: Seq<Seq<char>>,
    n: int,
    k: int,
)
    requires
        0 <= n <= files.len(),
        0 <= k < playlists_added(playlists, files, n).len(),
    ensures
        is_playlist_path(playlists_added(playlists, files, n)[k]),
    decreases n,
{
    let rest = playlists_added(playlists, files, n - 1);
    if k < rest.len() {
        pass_adds_playlists_only(playlists, files, n - 1, k);
    }
}

/// The rewriting of a line keeps every other line as it is: with a new path
/// in place of the line at index `i` the lines are as many as before and all
/// but that one are the same, and with that line taken out the lines before
/// it and after it stand as they stood.
pub proof fn rewriting_keeps_the_other_lines(
    ls: Seq<Seq<char>>,
    dir: Seq<char>,
    i: int,
    path: Seq<char>,
    k: int,
)
    requires
        0 <= i < ls.len(),
        0 <= k < ls.len(),
        k != i,
    ensures
        edited(ls, dir, i, EditView::Replace(path)).len() == ls.len(),
        edited(ls, dir, i, EditView::Replace(path))[k] == ls[k],
        edited(ls, dir, i, EditView::Replace(path))[i] == relative_to(path, dir),
        edited(ls, dir, i, EditView::Remove).len() == ls.len() - 1,
        k < i ==> edited(ls, dir, i, EditView::Remove)[k] == ls[k],
        k > i ==> edited(ls, dir, i, EditView::Remove)[k - 1] == ls[k],
{
}

} // verus!
