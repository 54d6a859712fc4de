use apollo_music::text::{
    append, chars_of, find, is_whitespace, joined, replace, same, split_lines, stands_at,
    string_of, trimmed,
};

fn text(s: &str) -> Vec<char> {
    s.chars().collect()
}

fn shown(v: &Vec<char>) -> String {
    v.iter().collect()
}

fn shown_lines(v: &Vec<Vec<char>>) -> Vec<String> {
    v.iter().map(shown).collect()
}

#[test]
fn chars_and_strings_convert_both_ways() {
    assert_eq!(chars_of("né－x"), vec!['n', 'é', '－', 'x']);
    assert_eq!(chars_of(""), Vec::<char>::new());
    assert_eq!(string_of(&vec!['a', 'ß', '香']), "aß香");
    assert_eq!(string_of(&chars_of("Plug In Baby")), "Plug In Baby");
}

#[test]
fn append_puts_the_text_behind() {
    let mut out = text("ab");
    append(&mut out, &text("cd"));
    assert_eq!(shown(&out), "abcd");
    append(&mut out, &text(""));
    assert_eq!(shown(&out), "abcd");
}

#[test]
fn same_compares_every_character() {
    assert!(same(&text("abc"), &text("abc")));
    assert!(!same(&text("abc"), &text("abd")));
    assert!(!same(&text("abc"), &text("ab")));
    assert!(same(&text(""), &text("")));
}

#[test]
fn stands_at_checks_the_place() {
    assert!(stands_at(&text("a - b"), &text(" - "), 1));
    assert!(!stands_at(&text("a - b"), &text(" - "), 0));
    assert!(!stands_at(&text("a - b"), &text(" - "), 3));
    assert!(!stands_at(&text("ab"), &text("abc"), 0));
    assert!(stands_at(&text("ab"), &text(""), 2));
    assert!(!stands_at(&text("ab"), &text(""), 3));
}

#[test]
fn find_gives_the_first_place_at_or_after_the_start() {
    assert_eq!(find(&text("a - b - c"), &text(" - "), 0), Some(1));
    assert_eq!(find(&text("a - b - c"), &text(" - "), 2), Some(5));
    assert_eq!(find(&text("a - b - c"), &text(" - "), 6), None);
    assert_eq!(find(&text("abc"), &text("x"), 0), None);
    assert_eq!(find(&text("ab"), &text("abc"), 0), None);
    assert_eq!(find(&text("abc"), &text("c"), 2), Some(2));
    assert_eq!(find(&text("abc"), &text("c"), 7), None);
}

#[test]
fn replace_agrees_with_the_standard_library() {
    let cases = [
        ("{artist}/{album}", "{artist}", "Muse"),
        ("aaa", "aa", "b"),
        ("aaaa", "aa", "b"),
        ("abcabc", "bc", ""),
        ("abc", "abc", "xyz"),
        ("abc", "abcd", "x"),
        ("", "a", "b"),
        ("a{ext}{ext}", "{ext}", "{ext}{ext}"),
        ("ünï", "ï", "i"),
    ];
    for (s, from, to) in cases {
        assert_eq!(shown(&replace(&text(s), &text(from), &text(to))), s.replace(from, to));
    }
}

#[test]
fn replace_with_an_empty_pattern_changes_nothing() {
    assert_eq!(shown(&replace(&text("abc"), &text(""), &text("x"))), "abc");
}

#[test]
fn is_whitespace_agrees_with_the_standard_library_on_every_character() {
    let mut code: u32 = 0;
    while code <= 0x10FFFF {
        if let Some(c) = char::from_u32(code) {
            assert_eq!(is_whitespace(c), c.is_whitespace(), "U+{:04X}", code);
        }
        code += 1;
    }
}

#[test]
fn trimmed_agrees_with_the_standard_library() {
    let cases = [
        "  a b  ",
        "\t\n x \r\n",
        "",
        "   ",
        "x",
        "\u{3000}wide\u{a0}",
        "\u{85}\u{2003}in\u{2028}m\u{205f}",
        "# comment ",
    ];
    for s in cases {
        assert_eq!(shown(&trimmed(&text(s))), s.trim());
    }
}

#[test]
fn split_lines_agrees_with_the_standard_library() {
    let cases = [
        "a\nb\r\nc",
        "a\n",
        "a\r\n",
        "",
        "\n",
        "\n\n",
        "a\r",
        "a\rb\n",
        "a\r\r\nb",
        "one",
        "#EXTM3U\n\n song.mp3 \n",
    ];
    for s in cases {
        let expected: Vec<String> = s.lines().map(|l| l.to_string()).collect();
        assert_eq!(shown_lines(&split_lines(&text(s))), expected, "{:?}", s);
    }
}

#[test]
fn split_lines_keeps_a_carriage_return_that_no_line_feed_follows() {
    assert_eq!(shown_lines(&split_lines(&text("a\r"))), vec!["a\r".to_string()]);
    assert_eq!(shown_lines(&split_lines(&text("a\r\nb\r"))), vec!["a".to_string(), "b\r".to_string()]);
}

#[test]
fn joined_puts_one_line_feed_between_lines() {
    assert_eq!(shown(&joined(&vec![text("a"), text("b"), text("c")])), "a\nb\nc");
    assert_eq!(shown(&joined(&vec![text("a")])), "a");
    assert_eq!(shown(&joined(&vec![])), "");
    assert_eq!(shown(&joined(&vec![text(""), text("")])), "\n");
    assert_eq!(shown(&joined(&vec![text("a"), text("")])), "a\n");
}

fn all_strings(alphabet: &[char], longest: usize) -> Vec<String> {
    let mut all = vec![String::new()];
    let mut last = vec![String::new()];
    for _ in 0..longest {
        let mut next = Vec::new();
        for s in &last {
            for c in alphabet {
                let mut longer = s.clone();
                longer.push(*c);
                next.push(longer);
            }
        }
        all.extend(next.iter().cloned());
        last = next;
    }
    all
}

#[test]
fn split_lines_agrees_with_the_standard_library_on_every_short_text() {
    for s in all_strings(&['a', '\n', '\r', ' '], 6) {
        let expected: Vec<String> = s.lines().map(|l| l.to_string()).collect();
        assert_eq!(shown_lines(&split_lines(&text(&s))), expected, "{:?}", s);
    }
}

#[test]
fn trimmed_agrees_with_the_standard_library_on_every_short_text() {
    for s in all_strings(&['a', '\n', '\u{a0}', ' ', '#'], 5) {
        assert_eq!(shown(&trimmed(&text(&s))), s.trim(), "{:?}", s);
    }
}

#[test]
fn replace_agrees_with_the_standard_library_on_every_short_text() {
    let patterns: Vec<String> =
        all_strings(&['a', 'b'], 3).into_iter().filter(|p| !p.is_empty()).collect();
    for s in all_strings(&['a', 'b'], 6) {
        for from in &patterns {
            for to in ["", "c", "ab"] {
                assert_eq!(
                    shown(&replace(&text(&s), &text(from), &text(to))),
                    s.replace(from.as_str(), to),
                    "{:?} {:?} {:?}",
                    s,
                    from,
                    to
                );
            }
        }
    }
}

#[test]
fn find_agrees_with_the_standard_library_on_every_short_text() {
    let patterns = all_strings(&['a', 'b'], 3);
    for s in all_strings(&['a', 'b'], 6) {
        for pat in &patterns {
            for start in 0..=s.len() {
                let expected = s[start..].find(pat.as_str()).map(|i| i + start);
                assert_eq!(find(&text(&s), &text(pat), start), expected, "{:?} {:?} {}", s, pat, start);
            }
        }
    }
}

#[test]
fn joining_the_lines_of_a_text_without_line_end_gives_the_text() {
    for s in all_strings(&['a', '\n', ' '], 6) {
        if s.ends_with('\n') || s.is_empty() {
            continue;
        }
        assert_eq!(shown(&joined(&split_lines(&text(&s)))), s, "{:?}", s);
    }
}
