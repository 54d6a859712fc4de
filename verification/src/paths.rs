//! Paths as text. A path is a sequence of characters in which `/` separates
//! the components; nothing here looks at the disk.
//!
//! Paths are compared by their components, not by their spelling. The
//! components of a path are the root, if the path starts at it, and the names
//! between the separators. An empty name counts for nothing, so that a
//! doubled separator and a separator at the end change no path; neither does
//! the name `.`, except at the start of a path that does not start at the
//! root. `..` is a component like any other name. This is how `std::path`
//! takes a path on a system whose separator is `/`.
//!
//! Where a function hands back part of a path as text, the text has one
//! separator between its names.

use crate::text::{append, same, slice, text_view, views};
use vstd::prelude::*;

verus! {

/// The greatest index below `hi` at which `s` holds `c`, or -1.
pub open spec fn last_index_before(s: Seq<char>, c: char, hi: int) -> int
    decreases hi,
{
    if hi <= 0 || hi > s.len() {
        -1
    } else if s[hi - 1] == c {
        hi - 1
    } else {
        last_index_before(s, c, hi - 1)
    }
}

/// The greatest index at which `s` holds `c`, or -1.
pub open spec fn last_index_of(s: Seq<char>, c: char) -> int {
    last_index_before(s, c, s.len() as int)
}

/// A path is absolute when it starts at the root.
pub open spec fn is_absolute(p: Seq<char>) -> bool {
    p.len() > 0 && p[0] == '/'
}

/// The path starts with the name `.` and not at the root.
pub open spec fn starts_here(p: Seq<char>) -> bool {
    p.len() > 0 && p[0] == '.' && (p.len() == 1 || p[1] == '/')
}

/// The root as a component.
pub open spec fn root() -> Seq<char> {
    seq!['/']
}

/// The name `.` as a component.
pub open spec fn here() -> Seq<char> {
    seq!['.']
}

/// The index at or after `i` at which the name ends that holds the character
/// at `i`: that of the next separator, or the length of `p`.
pub open spec fn name_end(p: Seq<char>, i: int) -> int
    decreases p.len() - i,
{
    if i < 0 || i >= p.len() {
        p.len() as int
    } else if p[i] == '/' {
        i
    } else {
        name_end(p, i + 1)
    }
}

/// The names of `p` from index `i` on, in order: what stands between
/// separators, but for empty names and the name `.`.
pub open spec fn names_from(p: Seq<char>, i: int) -> Seq<Seq<char>>
    decreases p.len() - i,
{
    if i < 0 || i >= p.len() {
        Seq::empty()
    } else if p[i] == '/' {
        names_from(p, i + 1)
    } else {
        let e = name_end(p, i);
        if e <= i || e > p.len() {
            Seq::empty()
        } else if p.subrange(i, e) == here() {
            names_from(p, e)
        } else {
            seq![p.subrange(i, e)] + names_from(p, e)
        }
    }
}

/// The component that a path starts with before its names: the root for an
/// absolute path, `.` for a path that starts with that name, and none for
/// any other.
pub open spec fn head(p: Seq<char>) -> Seq<Seq<char>> {
    if is_absolute(p) {
        seq![root()]
    } else if starts_here(p) {
        seq![here()]
    } else {
        Seq::empty()
    }
}

/// The components of a path.
pub open spec fn components(p: Seq<char>) -> Seq<Seq<char>> {
    head(p) + names_from(p, 0)
}

/// The two texts are the same path: they have the same components.
pub open spec fn same_path(a: Seq<char>, b: Seq<char>) -> bool {
    components(a) == components(b)
}

/// The name of the file that `p` ends in: its last component. A path whose
/// last component is the root, `.` or `..`, and a path without components,
/// names no file.
pub open spec fn file_name(p: Seq<char>) -> Option<Seq<char>> {
    let c = components(p);
    if c.len() == 0 || c.last() == root() || c.last() == here() || c.last() == seq!['.', '.'] {
        None
    } else {
        Some(c.last())
    }
}

/// What follows the last dot of the file name, where the name has a dot that
/// is not its first character.
pub open spec fn extension(p: Seq<char>) -> Option<Seq<char>> {
    match file_name(p) {
        None => None,
        Some(n) => {
            let d = last_index_of(n, '.');
            if d <= 0 {
                None
            } else {
                Some(n.subrange(d + 1, n.len() as int))
            }
        },
    }
}

/// The file name without its extension and the dot before it.
pub open spec fn file_stem(p: Seq<char>) -> Option<Seq<char>> {
    match file_name(p) {
        None => None,
        Some(n) => {
            let d = last_index_of(n, '.');
            if d <= 0 {
                Some(n)
            } else {
                Some(n.subrange(0, d))
            }
        },
    }
}

/// `rel` as seen from `dir`: an absolute `rel` stands for itself, any other
/// is appended to `dir` behind one separator.
pub open spec fn join(dir: Seq<char>, rel: Seq<char>) -> Seq<char> {
    if is_absolute(rel) || dir.len() == 0 {
        rel
    } else if dir.last() == '/' {
        dir + rel
    } else {
        dir + seq!['/'] + rel
    }
}

/// `p` is `dir` or lies below it: the components of `dir` are the first
/// components of `p`.
pub open spec fn is_below(p: Seq<char>, dir: Seq<char>) -> bool {
    let c = components(p);
    let d = components(dir);
    d.len() <= c.len() && c.subrange(0, d.len() as int) == d
}

/// The components of `p` as seen from `dir`: those that follow the components
/// of `dir` where `p` lies below `dir`, and all of them otherwise.
pub open spec fn relative_components(p: Seq<char>, dir: Seq<char>) -> Seq<Seq<char>> {
    let c = components(p);
    if is_below(p, dir) {
        c.subrange(components(dir).len() as int, c.len() as int)
    } else {
        c
    }
}

/// The text of a path with these components: the names with one separator
/// between them, behind the root if that is the first component.
pub open spec fn path_text(c: Seq<Seq<char>>) -> Seq<char>
    decreases c.len(),
{
    if c.len() == 0 {
        Seq::empty()
    } else if c.len() == 1 {
        c[0]
    } else if c.len() == 2 && c[0] == root() {
        c[0] + c[1]
    } else {
        path_text(c.drop_last()) + seq!['/'] + c.last()
    }
}

/// The directory that holds `p`: the path of all components of `p` but the
/// last. It is empty for a path of one name, and for the root and the empty
/// path, which no directory holds.
pub open spec fn parent_dir(p: Seq<char>) -> Seq<char> {
    let c = components(p);
    if c.len() == 0 || c.last() == root() {
        Seq::empty()
    } else {
        path_text(c.drop_last())
    }
}

/// `p` as seen from `dir`, as text: the components that follow those of `dir`
/// where `p` lies below `dir`, and `p` as it is written otherwise.
pub open spec fn relative_to(p: Seq<char>, dir: Seq<char>) -> Seq<char> {
    if is_below(p, dir) {
        path_text(relative_components(p, dir))
    } else {
        p
    }
}

/// The greatest index at which `s` holds `c`.
pub fn last_index(s: &Vec<char>, c: char) -> (r: Option<usize>)
    ensures
        match r {
            Some(i) => last_index_of(s@, c) == i && i < s.len() && s@[i as int] == c,
            None => last_index_of(s@, c) == -1,
        },
{
    let mut hi: usize = s.len();
    while hi > 0
        invariant
            hi <= s.len(),
            last_index_before(s@, c, hi as int) == last_index_of(s@, c),
        decreases hi,
    {
        if s[hi - 1] == c {
            return Some(hi - 1);
        }
        hi -= 1;
    }
    None
}

/// Whether `n` is the one character `c`.
fn is_single(n: &Vec<char>, c: char) -> (r: bool)
    ensures
        r == (n@ == seq![c]),
{
    if n.len() == 1 && n[0] == c {
        assert(n@ =~= seq![c]);
        true
    } else {
        assert(n@ != seq![c]) by {
            if n@ == seq![c] {
                assert(seq![c].len() == 1);
                assert(seq![c][0] == c);
            }
        }
        false
    }
}

/// Whether `n` is the name `..`.
fn is_parent(n: &Vec<char>) -> (r: bool)
    ensures
        r == (n@ == seq!['.', '.']),
{
    if n.len() == 2 && n[0] == '.' && n[1] == '.' {
        assert(n@ =~= seq!['.', '.']);
        true
    } else {
        assert(n@ != seq!['.', '.']) by {
            if n@ == seq!['.', '.'] {
                assert(seq!['.', '.'].len() == 2);
                assert(seq!['.', '.'][0] == '.');
                assert(seq!['.', '.'][1] == '.');
            }
        }
        false
    }
}

/// The one character `c` as a component.
fn single(c: char) -> (n: Vec<char>)
    ensures
        n@ == seq![c],
{
    let mut n: Vec<char> = Vec::new();
    n.push(c);
    assert(n@ =~= seq![c]);
    n
}

/// The components of `p`.
pub fn parts(p: &Vec<char>) -> (out: Vec<Vec<char>>)
    ensures
        views(out@) == components(p@),
{
    let mut out: Vec<Vec<char>> = Vec::new();
    if p.len() > 0 && p[0] == '/' {
        out.push(single('/'));
    } else if p.len() > 0 && p[0] == '.' && (p.len() == 1 || p[1] == '/') {
        out.push(single('.'));
    }
    assert(views(out@) =~= head(p@));
    assert(views(out@) + names_from(p@, 0) =~= components(p@));
    let mut i: usize = 0;
    while i < p.len()
        invariant
            i <= p.len(),
            views(out@) + names_from(p@, i as int) == components(p@),
        decreases p.len() - i,
    {
        if p[i] == '/' {
            i += 1;
        } else {
            let mut e: usize = i;
            while e < p.len() && p[e] != '/'
                invariant
                    i <= e <= p.len(),
                    i < p.len(),
                    p@[i as int] != '/',
                    name_end(p@, e as int) == name_end(p@, i as int),
                decreases p.len() - e,
            {
                e += 1;
            }
            assert(e > i);
            let ghost before = out@;
            let name = slice(p, i, e);
            if !is_single(&name, '.') {
                out.push(name);
                assert(views(out@) =~= views(before).push(name@));
                assert(views(out@) + names_from(p@, e as int) =~= views(before) + names_from(
                    p@,
                    i as int,
                ));
            }
            i = e;
        }
    }
    assert(views(out@) + names_from(p@, p.len() as int) =~= views(out@));
    out
}

/// Whether the two lists of components are the same.
pub fn same_parts(a: &Vec<Vec<char>>, b: &Vec<Vec<char>>) -> (r: bool)
    ensures
        r == (views(a@) == views(b@)),
{
    if a.len() != b.len() {
        assert(views(a@).len() != views(b@).len());
        return false;
    }
    let mut i: usize = 0;
    while i < a.len()
        invariant
            i <= a.len(),
            a.len() == b.len(),
            forall|k: int| 0 <= k < i ==> a@[k]@ == b@[k]@,
        decreases a.len() - i,
    {
        if !same(&a[i], &b[i]) {
            assert(views(a@)[i as int] != views(b@)[i as int]);
            return false;
        }
        i += 1;
    }
    assert(views(a@) =~= views(b@));
    true
}

/// Whether the two texts are the same path.
pub fn is_same_path(a: &Vec<char>, b: &Vec<char>) -> (r: bool)
    ensures
        r == same_path(a@, b@),
{
    same_parts(&parts(a), &parts(b))
}

/// The name of the file that `p` ends in.
pub fn name_of(p: &Vec<char>) -> (r: Option<Vec<char>>)
    ensures
        text_view(r) == file_name(p@),
{
    let mut c = parts(p);
    let ghost all = views(c@);
    match c.pop() {
        None => None,
        Some(last) => {
            assert(all.last() == last@);
            if is_single(&last, '/') || is_single(&last, '.') || is_parent(&last) {
                None
            } else {
                Some(last)
            }
        },
    }
}

/// The extension of the file that `p` ends in.
pub fn extension_of(p: &Vec<char>) -> (r: Option<Vec<char>>)
    ensures
        text_view(r) == extension(p@),
{
    match name_of(p) {
        None => None,
        Some(n) => match last_index(&n, '.') {
            None => None,
            Some(d) => if d == 0 {
                None
            } else {
                Some(slice(&n, d + 1, n.len()))
            },
        },
    }
}

/// The file name of `p` without its extension.
pub fn stem_of(p: &Vec<char>) -> (r: Option<Vec<char>>)
    ensures
        text_view(r) == file_stem(p@),
{
    match name_of(p) {
        None => None,
        Some(n) => match last_index(&n, '.') {
            None => Some(n),
            Some(d) => if d == 0 {
                Some(n)
            } else {
                Some(slice(&n, 0, d))
            },
        },
    }
}

/// Whether `p` starts at the root.
pub fn starts_at_root(p: &Vec<char>) -> (r: bool)
    ensures
        r == is_absolute(p@),
{
    p.len() > 0 && p[0] == '/'
}

/// `rel` as seen from `dir`.
pub fn joined_path(dir: &Vec<char>, rel: &Vec<char>) -> (r: Vec<char>)
    ensures
        r@ == join(dir@, rel@),
{
    let mut out: Vec<char> = Vec::new();
    if !starts_at_root(rel) && dir.len() > 0 {
        append(&mut out, dir);
        if dir[dir.len() - 1] != '/' {
            out.push('/');
        }
    }
    append(&mut out, rel);
    assert(out@ =~= join(dir@, rel@));
    out
}

/// Whether the components `d` are the first of the components `c`.
fn starts_with_parts(c: &Vec<Vec<char>>, d: &Vec<Vec<char>>) -> (r: bool)
    ensures
        r == (d.len() <= c.len() && views(c@).subrange(0, d.len() as int) == views(d@)),
{
    if d.len() > c.len() {
        return false;
    }
    let mut i: usize = 0;
    while i < d.len()
        invariant
            i <= d.len() <= c.len(),
            forall|k: int| 0 <= k < i ==> c@[k]@ == d@[k]@,
        decreases d.len() - i,
    {
        if !same(&c[i], &d[i]) {
            assert(views(c@).subrange(0, d.len() as int)[i as int] != views(d@)[i as int]);
            return false;
        }
        i += 1;
    }
    assert(views(c@).subrange(0, d.len() as int) =~= views(d@));
    true
}

/// Whether `p` is `dir` or lies below it.
pub fn lies_below(p: &Vec<char>, dir: &Vec<char>) -> (r: bool)
    ensures
        r == is_below(p@, dir@),
{
    starts_with_parts(&parts(p), &parts(dir))
}

/// The components of `p` as seen from `dir`.
pub fn relative_parts(p: &Vec<char>, dir: &Vec<char>) -> (r: Vec<Vec<char>>)
    ensures
        views(r@) == relative_components(p@, dir@),
{
    let c = parts(p);
    let d = parts(dir);
    if starts_with_parts(&c, &d) {
        let mut r: Vec<Vec<char>> = Vec::new();
        let mut i: usize = d.len();
        assert(views(r@) =~= views(c@).subrange(d.len() as int, i as int));
        while i < c.len()
            invariant
                d.len() <= i <= c.len(),
                views(r@) == views(c@).subrange(d.len() as int, i as int),
            decreases c.len() - i,
        {
            let ghost before = r@;
            let name = slice(&c[i], 0, c[i].len());
            assert(name@ =~= c@[i as int]@);
            r.push(name);
            assert(views(r@) =~= views(before).push(name@));
            assert(views(c@).subrange(d.len() as int, i + 1) =~= views(c@).subrange(
                d.len() as int,
                i as int,
            ).push(c@[i as int]@));
            i += 1;
        }
        r
    } else {
        c
    }
}

/// The text of a path with these components.
pub fn text_of(c: &Vec<Vec<char>>) -> (r: Vec<char>)
    ensures
        r@ == path_text(views(c@)),
{
    let mut out: Vec<char> = Vec::new();
    let mut i: usize = 0;
    while i < c.len()
        invariant
            i <= c.len(),
            out@ == path_text(views(c@).subrange(0, i as int)),
        decreases c.len() - i,
    {
        let ghost done = views(c@).subrange(0, i as int);
        let ghost next = views(c@).subrange(0, i + 1);
        assert(next.drop_last() =~= done);
        assert(next.last() == c@[i as int]@);
        if i == 1 {
            assert(done[0] == c@[0]@);
            assert(next[0] == c@[0]@);
        }
        if i > 1 || (i == 1 && !is_single(&c[0], '/')) {
            out.push('/');
        }
        append(&mut out, &c[i]);
        assert(out@ =~= path_text(next));
        i += 1;
    }
    assert(views(c@).subrange(0, c.len() as int) =~= views(c@));
    out
}

/// The directory that holds `p`.
pub fn parent_of(p: &Vec<char>) -> (r: Vec<char>)
    ensures
        r@ == parent_dir(p@),
{
    let mut c = parts(p);
    let ghost all = views(c@);
    match c.pop() {
        None => Vec::new(),
        Some(last) => {
            assert(all.last() == last@);
            assert(views(c@) =~= all.drop_last());
            if is_single(&last, '/') {
                Vec::new()
            } else {
                text_of(&c)
            }
        },
    }
}

/// `p` as seen from `dir`, as text.
pub fn relative(p: &Vec<char>, dir: &Vec<char>) -> (r: Vec<char>)
    ensures
        r@ == relative_to(p@, dir@),
{
    if lies_below(p, dir) {
        text_of(&relative_parts(p, dir))
    } else {
        let r = slice(p, 0, p.len());
        assert(r@ =~= p@);
        r
    }
}

/// A name ends at or after the index at which it is looked for, and within
/// the path.
proof fn name_end_is_within(p: Seq<char>, i: int)
    requires
        0 <= i <= p.len(),
    ensures
        i <= name_end(p, i) <= p.len(),
        name_end(p, i) < p.len() ==> p[name_end(p, i)] == '/',
        i < p.len() && p[i] != '/' ==> i < name_end(p, i),
    decreases p.len() - i,
{
    if i < p.len() && p[i] != '/' {
        name_end_is_within(p, i + 1);
    }
}

/// Every name is a text without separator that begins with a character: no
/// name is empty, and none is the root.
proof fn names_are_plain(p: Seq<char>, i: int, k: int)
    requires
        0 <= i <= p.len(),
        0 <= k < names_from(p, i).len(),
    ensures
        names_from(p, i)[k].len() > 0,
        names_from(p, i)[k][0] != '/',
    decreases p.len() - i,
{
    if i < p.len() {
        if p[i] == '/' {
            names_are_plain(p, i + 1, k);
        } else {
            name_end_is_within(p, i);
            let e = name_end(p, i);
            if p.subrange(i, e) == here() {
                names_are_plain(p, e, k);
            } else if k > 0 {
                names_are_plain(p, e, k - 1);
            } else {
                assert(p.subrange(i, e)[0] == p[i]);
            }
        }
    }
}

/// A name of `a` ends where it ended when another text is put behind `a`,
/// if `a` ends in a separator or the other text starts with one or is empty.
proof fn name_end_with_more(a: Seq<char>, b: Seq<char>, i: int)
    requires
        0 <= i < a.len(),
        a.last() == '/' || b.len() == 0 || b[0] == '/',
    ensures
        name_end(a + b, i) == name_end(a, i),
    decreases a.len() - i,
{
    let x = a + b;
    assert(x[i] == a[i]);
    if a[i] != '/' {
        if i + 1 < a.len() {
            name_end_with_more(a, b, i + 1);
        } else {
            // the name runs to the end of a
            assert(name_end(a, i + 1) == a.len());
            if b.len() > 0 {
                assert(a.last() == a[i]);
                assert(x[i + 1] == b[0]);
                assert(name_end(x, i + 1) == i + 1);
            } else {
                assert(x =~= a);
            }
        }
    }
}

/// A name of `b` ends, behind `a`, where it ended in `b`, moved by the length
/// of `a`.
proof fn name_end_behind(a: Seq<char>, b: Seq<char>, j: int)
    requires
        0 <= j <= b.len(),
    ensures
        name_end(a + b, a.len() + j) == a.len() + name_end(b, j),
    decreases b.len() - j,
{
    let x = a + b;
    if j < b.len() {
        assert(x[a.len() + j] == b[j]);
        if b[j] != '/' {
            name_end_behind(a, b, j + 1);
        }
    }
}

/// The names of `b` behind `a` are the names of `b`.
proof fn names_behind(a: Seq<char>, b: Seq<char>, j: int)
    requires
        0 <= j <= b.len(),
    ensures
        names_from(a + b, a.len() + j) == names_from(b, j),
    decreases b.len() - j,
{
    let x = a + b;
    if j < b.len() {
        assert(x[a.len() + j] == b[j]);
        if b[j] == '/' {
            names_behind(a, b, j + 1);
        } else {
            name_end_behind(a, b, j);
            name_end_is_within(b, j);
            let e = name_end(b, j);
            assert(x.subrange(a.len() + j, a.len() + e) =~= b.subrange(j, e));
            names_behind(a, b, e);
        }
    }
}

/// The names of a text and of another put behind it are the names of the
/// first and then those of the second, if the first ends in a separator or
/// the second starts with one or is empty.
proof fn names_with_more(a: Seq<char>, b: Seq<char>, i: int)
    requires
        0 <= i <= a.len(),
        a.len() == 0 || a.last() == '/' || b.len() == 0 || b[0] == '/',
    ensures
        names_from(a + b, i) == names_from(a, i) + names_from(b, 0),
    decreases a.len() - i,
{
    let x = a + b;
    if i == a.len() {
        names_behind(a, b, 0);
        assert(names_from(a, i) + names_from(b, 0) =~= names_from(b, 0));
    } else {
        assert(x[i] == a[i]);
        if a[i] == '/' {
            names_with_more(a, b, i + 1);
        } else {
            name_end_with_more(a, b, i);
            name_end_is_within(a, i);
            let e = name_end(a, i);
            assert(x.subrange(i, e) =~= a.subrange(i, e));
            names_with_more(a, b, e);
            assert((seq![a.subrange(i, e)] + names_from(a, e)) + names_from(b, 0) =~= seq![
                a.subrange(i, e),
            ] + (names_from(a, e) + names_from(b, 0)));
        }
    }
}

/// A relative path that is joined to a directory lies below that directory,
/// and is, as seen from it, the relative path: the components of the joined
/// path are those of the directory and then those of the relative path. The
/// relative path does not start with the name `.`, which is a component only
/// at the start of a path.
pub proof fn joined_path_lies_below(dir: Seq<char>, rel: Seq<char>)
    requires
        dir.len() > 0,
        !is_absolute(rel),
        !starts_here(rel),
    ensures
        components(join(dir, rel)) == components(dir) + components(rel),
        is_below(join(dir, rel), dir),
        relative_components(join(dir, rel), dir) == components(rel),
{
    let x = join(dir, rel);
    let d = components(dir);
    let r = components(rel);
    assert(r =~= names_from(rel, 0));
    if dir.last() == '/' {
        assert(x == dir + rel);
        names_with_more(dir, rel, 0);
        if dir.len() == 1 {
        } else {
            assert(x[1] == dir[1]);
        }
    } else {
        let sep = seq!['/'];
        let tail = sep + rel;
        assert(x =~= dir + tail);
        names_with_more(dir, tail, 0);
        names_behind(sep, rel, 0);
        assert(tail[0] == '/');
        assert(names_from(tail, 0) == names_from(tail, 1));
        if dir.len() == 1 {
            assert(x[1] == '/');
        } else {
            assert(x[1] == dir[1]);
        }
    }
    assert(x[0] == dir[0]);
    assert(head(x) == head(dir));
    assert(components(x) =~= d + r);
    assert((d + r).subrange(0, d.len() as int) =~= d);
    assert((d + r).subrange(d.len() as int, (d + r).len() as int) =~= r);
}

/// A relative path does not lie below an absolute directory: as seen from
/// it, the path has all its components.
pub proof fn relative_path_is_not_below_root(p: Seq<char>, dir: Seq<char>)
    requires
        !is_absolute(p),
        is_absolute(dir),
    ensures
        !is_below(p, dir),
        relative_components(p, dir) == components(p),
{
    let c = components(p);
    let d = components(dir);
    assert(d[0] == root());
    if d.len() <= c.len() && c.subrange(0, d.len() as int) == d {
        assert(c.subrange(0, d.len() as int)[0] == c[0]);
        assert(root()[0] == '/');
        if starts_here(p) {
            assert(c[0] == here());
            assert(here()[0] == '.');
        } else {
            assert(c =~= names_from(p, 0));
            names_are_plain(p, 0, 0);
        }
    }
}

} // verus!
