use apollo_music::paths::{
    extension_of, is_same_path, joined_path, last_index, lies_below, name_of, parent_of, parts,
    relative, relative_parts, starts_at_root, stem_of, text_of,
};
use std::path::Component;
use std::path::Path;

fn path_text(s: &str) -> Vec<char> {
    s.chars().collect()
}

fn path_shown(v: Vec<char>) -> String {
    v.into_iter().collect()
}

fn path_option(o: Option<Vec<char>>) -> Option<String> {
    o.map(path_shown)
}

const ORDINARY: [&str; 12] = [
    "/music/Muse/Origin of Symmetry/Plug In Baby.mp3",
    "music/a.flac",
    "a.b.c",
    "name",
    ".hidden",
    "/root.wav",
    "dir/.hidden.m3u",
    "dir.with.dots/file",
    "lists/mix.m3u8",
    "trailing.",
    "/a/b/c - d.mp3",
    "é/香.flac",
];

#[test]
fn last_index_finds_the_last_occurrence() {
    assert_eq!(last_index(&path_text("a/b/c"), '/'), Some(3));
    assert_eq!(last_index(&path_text("abc"), '/'), None);
    assert_eq!(last_index(&path_text("/"), '/'), Some(0));
    assert_eq!(last_index(&path_text(""), '/'), None);
}

#[test]
fn file_names_of_ordinary_paths_agree_with_the_standard_library() {
    for p in ORDINARY {
        let expected = Path::new(p).file_name().map(|n| n.to_string_lossy().to_string());
        assert_eq!(path_option(name_of(&path_text(p))), expected, "{}", p);
    }
}

#[test]
fn extensions_of_ordinary_paths_agree_with_the_standard_library() {
    for p in ORDINARY {
        let expected = Path::new(p).extension().map(|n| n.to_string_lossy().to_string());
        assert_eq!(path_option(extension_of(&path_text(p))), expected, "{}", p);
    }
}

#[test]
fn stems_of_ordinary_paths_agree_with_the_standard_library() {
    for p in ORDINARY {
        let expected = Path::new(p).file_stem().map(|n| n.to_string_lossy().to_string());
        assert_eq!(path_option(stem_of(&path_text(p))), expected, "{}", p);
    }
}

#[test]
fn parents_of_ordinary_paths_agree_with_the_standard_library() {
    for p in ORDINARY {
        let expected = Path::new(p).parent().map(|n| n.to_string_lossy().to_string()).unwrap_or_default();
        assert_eq!(path_shown(parent_of(&path_text(p))), expected, "{}", p);
    }
}

#[test]
fn paths_that_name_no_file() {
    assert_eq!(name_of(&path_text("")), None);
    assert_eq!(name_of(&path_text("/")), None);
    assert_eq!(name_of(&path_text("..")), None);
    assert_eq!(name_of(&path_text("a/..")), None);
    assert_eq!(name_of(&path_text(".")), None);
    assert_eq!(name_of(&path_text("./")), None);
    assert_eq!(extension_of(&path_text("dir/..")), None);
    assert_eq!(stem_of(&path_text("/")), None);
}

#[test]
fn a_separator_at_the_end_changes_no_file_name() {
    assert_eq!(path_option(name_of(&path_text("a/b/"))), Some("b".to_string()));
    assert_eq!(path_option(name_of(&path_text("a/b//"))), Some("b".to_string()));
    assert_eq!(path_option(name_of(&path_text("a/b/."))), Some("b".to_string()));
    assert_eq!(path_option(extension_of(&path_text("dir/x.mp3/"))), Some("mp3".to_string()));
}

#[test]
fn components_leave_out_empty_names_and_inner_dots() {
    let shown = |p: &str| -> Vec<String> { parts(&path_text(p)).into_iter().map(path_shown).collect() };
    assert_eq!(shown("/music//lists/./mix.m3u"), vec!["/", "music", "lists", "mix.m3u"]);
    assert_eq!(shown("songs/a.mp3/"), vec!["songs", "a.mp3"]);
    assert_eq!(shown("./songs/../a.mp3"), vec![".", "songs", "..", "a.mp3"]);
    assert_eq!(shown("/./a"), vec!["/", "a"]);
    assert_eq!(shown("."), vec!["."]);
    assert_eq!(shown(".a/.b"), vec![".a", ".b"]);
    assert_eq!(shown(""), Vec::<String>::new());
    assert_eq!(shown("///"), vec!["/"]);
}

#[test]
fn paths_are_the_same_whatever_their_spelling() {
    assert!(is_same_path(&path_text("songs//a.mp3"), &path_text("songs/a.mp3")));
    assert!(is_same_path(&path_text("songs/./a.mp3/"), &path_text("songs/a.mp3")));
    assert!(is_same_path(&path_text("/a/b"), &path_text("//a//b//")));
    assert!(!is_same_path(&path_text("/a/b"), &path_text("a/b")));
    assert!(!is_same_path(&path_text("./a"), &path_text("a")));
    assert!(!is_same_path(&path_text("a/../b"), &path_text("b")));
    assert!(!is_same_path(&path_text("a/b"), &path_text("a/B")));
}

#[test]
fn text_of_components_puts_one_separator_between_names() {
    let text = |c: &[&str]| -> String {
        path_shown(text_of(&c.iter().map(|n| path_text(n)).collect()))
    };
    assert_eq!(text(&["/", "a", "b"]), "/a/b");
    assert_eq!(text(&["a", "b", "c"]), "a/b/c");
    assert_eq!(text(&["/"]), "/");
    assert_eq!(text(&["/", "a"]), "/a");
    assert_eq!(text(&["a"]), "a");
    assert_eq!(text(&[]), "");
    assert_eq!(text(&[".", "a"]), "./a");
}

fn short_paths(longest: usize) -> Vec<String> {
    let alphabet = ['/', '.', 'a'];
    let mut all = vec![String::new()];
    let mut last = vec![String::new()];
    for _ in 0..longest {
        let mut next = Vec::new();
        for s in &last {
            for c in alphabet {
                let mut longer = s.clone();
                longer.push(c);
                next.push(longer);
            }
        }
        all.extend(next.iter().cloned());
        last = next;
    }
    all
}

fn std_components(p: &str) -> Vec<String> {
    Path::new(p)
        .components()
        .map(|c| match c {
            Component::RootDir => "/".to_string(),
            Component::CurDir => ".".to_string(),
            Component::ParentDir => "..".to_string(),
            Component::Normal(n) => n.to_string_lossy().to_string(),
            Component::Prefix(x) => x.as_os_str().to_string_lossy().to_string(),
        })
        .collect()
}

#[test]
fn components_agree_with_the_standard_library_on_every_short_path() {
    for p in short_paths(7) {
        let mine: Vec<String> = parts(&path_text(&p)).into_iter().map(path_shown).collect();
        assert_eq!(mine, std_components(&p), "{:?}", p);
    }
}

#[test]
fn names_agree_with_the_standard_library_on_every_short_path() {
    for p in short_paths(7) {
        let path = Path::new(&p);
        let text = path_text(&p);
        let name = path.file_name().map(|n| n.to_string_lossy().to_string());
        let extension = path.extension().map(|n| n.to_string_lossy().to_string());
        let stem = path.file_stem().map(|n| n.to_string_lossy().to_string());
        assert_eq!(path_option(name_of(&text)), name, "{:?}", p);
        assert_eq!(path_option(extension_of(&text)), extension, "{:?}", p);
        assert_eq!(path_option(stem_of(&text)), stem, "{:?}", p);
        assert_eq!(starts_at_root(&text), path.is_absolute(), "{:?}", p);
        let parent = path_shown(parent_of(&text));
        assert!(Path::new(&parent) == path.parent().unwrap_or(Path::new("")), "{:?}: {:?}", p, parent);
    }
}

#[test]
fn comparison_and_prefix_agree_with_the_standard_library_on_every_short_path() {
    let all = short_paths(4);
    for p in &all {
        for d in &all {
            let path = Path::new(p);
            let dir = Path::new(d);
            let (pt, dt) = (path_text(p), path_text(d));
            assert_eq!(is_same_path(&pt, &dt), path == dir, "{:?} {:?}", p, d);
            let stripped = path.strip_prefix(dir);
            assert_eq!(lies_below(&pt, &dt), stripped.is_ok(), "{:?} {:?}", p, d);
            let seen = stripped.unwrap_or(path);
            let mine: Vec<String> = relative_parts(&pt, &dt).into_iter().map(path_shown).collect();
            assert_eq!(mine, std_components(&seen.to_string_lossy()), "{:?} {:?}", p, d);
            let text = path_shown(relative(&pt, &dt));
            assert!(Path::new(&text) == seen, "{:?} {:?}: {:?}", p, d, text);
            let joined = dir.join(path).to_string_lossy().to_string();
            assert_eq!(path_shown(joined_path(&dt, &pt)), joined, "{:?} {:?}", d, p);
        }
    }
}

#[test]
fn extension_and_stem_split_at_the_last_dot() {
    assert_eq!(path_option(extension_of(&path_text("a.tar.gz"))), Some("gz".to_string()));
    assert_eq!(path_option(stem_of(&path_text("a.tar.gz"))), Some("a.tar".to_string()));
    assert_eq!(path_option(extension_of(&path_text(".profile"))), None);
    assert_eq!(path_option(stem_of(&path_text(".profile"))), Some(".profile".to_string()));
    assert_eq!(path_option(extension_of(&path_text("x."))), Some("".to_string()));
    assert_eq!(path_option(stem_of(&path_text("x."))), Some("x".to_string()));
}

#[test]
fn parent_is_what_stands_before_the_last_separator() {
    assert_eq!(path_shown(parent_of(&path_text("/music/lists/mix.m3u"))), "/music/lists");
    assert_eq!(path_shown(parent_of(&path_text("mix.m3u"))), "");
    assert_eq!(path_shown(parent_of(&path_text("/mix.m3u"))), "/");
    assert_eq!(path_shown(parent_of(&path_text(""))), "");
    assert_eq!(path_shown(parent_of(&path_text("/"))), "");
    assert_eq!(path_shown(parent_of(&path_text("/music//lists/mix.m3u"))), "/music/lists");
    assert_eq!(path_shown(parent_of(&path_text("lists/mix.m3u/"))), "lists");
}

#[test]
fn absolute_paths_start_at_the_root() {
    assert!(starts_at_root(&path_text("/a")));
    assert!(starts_at_root(&path_text("/")));
    assert!(!starts_at_root(&path_text("a/b")));
    assert!(!starts_at_root(&path_text("")));
    assert!(!starts_at_root(&path_text("./a")));
}

#[test]
fn join_agrees_with_the_standard_library() {
    let cases = [
        ("/music", "a.mp3"),
        ("/music/", "a.mp3"),
        ("/music", "/other/a.mp3"),
        ("", "a.mp3"),
        ("music", "Muse/Origin of Symmetry/Plug In Baby.mp3"),
        ("music", ""),
        ("/", "a"),
    ];
    for (dir, rel) in cases {
        let expected = Path::new(dir).join(rel).to_string_lossy().to_string();
        assert_eq!(path_shown(joined_path(&path_text(dir), &path_text(rel))), expected, "{} {}", dir, rel);
    }
}

#[test]
fn lies_below_wants_a_whole_component() {
    assert!(lies_below(&path_text("/music/a.mp3"), &path_text("/music")));
    assert!(lies_below(&path_text("/music/a.mp3"), &path_text("/music/")));
    assert!(lies_below(&path_text("/music"), &path_text("/music")));
    assert!(!lies_below(&path_text("/musical/a.mp3"), &path_text("/music")));
    assert!(!lies_below(&path_text("/mus"), &path_text("/music")));
    assert!(lies_below(&path_text("anything"), &path_text("")));
    assert!(lies_below(&path_text("/music//lists/a.mp3"), &path_text("/music/lists/")));
    assert!(!lies_below(&path_text("music/a.mp3"), &path_text("/music")));
}

#[test]
fn relative_agrees_with_the_standard_library() {
    let cases = [
        ("/music/lists/a.mp3", "/music/lists"),
        ("/music/lists/sub/a.mp3", "/music/lists"),
        ("/music/lists/a.mp3", "/music/lists/"),
        ("/music/lists//a.mp3", "/music/lists"),
        ("/music/listsx/a.mp3", "/music/lists"),
        ("a.mp3", "/music/lists"),
        ("sub/a.mp3", ""),
        ("/music/lists", "/music/lists"),
        ("/a", "/"),
        ("lists/a.mp3", "lists"),
    ];
    for (p, dir) in cases {
        let path = Path::new(p);
        let expected = path.strip_prefix(dir).unwrap_or(path).to_string_lossy().to_string();
        assert_eq!(path_shown(relative(&path_text(p), &path_text(dir))), expected, "{} {}", p, dir);
    }
}

fn clean_paths() -> Vec<String> {
    let names = ["a", "b.c", ".h", "d.", "e f", "g.h.i"];
    let mut all: Vec<String> = Vec::new();
    let mut last: Vec<String> = names.iter().map(|n| n.to_string()).collect();
    for _ in 0..3 {
        all.extend(last.iter().cloned());
        all.extend(last.iter().map(|p| format!("/{}", p)));
        let mut next = Vec::new();
        for p in &last {
            for n in names {
                next.push(format!("{}/{}", p, n));
            }
        }
        last = next;
    }
    all
}

#[test]
fn names_of_clean_paths_agree_with_the_standard_library() {
    for p in clean_paths() {
        let path = Path::new(&p);
        let text = path_text(&p);
        let name = path.file_name().map(|n| n.to_string_lossy().to_string());
        let extension = path.extension().map(|n| n.to_string_lossy().to_string());
        let stem = path.file_stem().map(|n| n.to_string_lossy().to_string());
        assert_eq!(path_option(name_of(&text)), name, "{}", p);
        assert_eq!(path_option(extension_of(&text)), extension, "{}", p);
        assert_eq!(path_option(stem_of(&text)), stem, "{}", p);
        assert_eq!(
            path_shown(parent_of(&text)),
            path.parent().map(|d| d.to_string_lossy().to_string()).unwrap_or_default(),
            "{}",
            p
        );
        assert_eq!(starts_at_root(&text), path.is_absolute(), "{}", p);
    }
}

#[test]
fn relative_and_join_of_clean_paths_agree_with_the_standard_library() {
    let all = clean_paths();
    let dirs: Vec<&String> = all.iter().filter(|p| p.matches('/').count() <= 2).collect();
    for p in &all {
        for dir in &dirs {
            let path = Path::new(p);
            let stripped = path.strip_prefix(dir.as_str()).unwrap_or(path).to_string_lossy().to_string();
            assert_eq!(path_shown(relative(&path_text(p), &path_text(dir))), stripped, "{} {}", p, dir);
            let joined = Path::new(dir.as_str()).join(p).to_string_lossy().to_string();
            assert_eq!(path_shown(joined_path(&path_text(dir), &path_text(p))), joined, "{} {}", dir, p);
        }
    }
}
