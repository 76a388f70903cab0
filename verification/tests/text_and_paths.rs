use lean_ctx::intent::{TaskClassification, TaskType};
use lean_ctx::ranges::extract_line_range;
use lean_ctx::task_briefing::{completeness_of_dirs, estimate_completeness};
use lean_ctx::text::{
    contains_text, decimal_text, join_texts, lower_char, parse_number, same_ignoring_case,
    split_lines, split_text, split_words, starts_with_text, trim_text, white,
};
use std::path::Path;

#[test]
fn white_space_is_that_of_the_standard_library() {
    let mut c = '\0';
    loop {
        assert_eq!(white(c), c.is_whitespace(), "{:x}", c as u32);
        assert_eq!(lower_char(c), c.to_ascii_lowercase(), "{:x}", c as u32);
        match (c as u32 + 1..=0x10ffff).find_map(char::from_u32) {
            Some(next) => c = next,
            None => break,
        }
    }
}

fn words_over(alphabet: &[char], longest: usize) -> Vec<String> {
    let mut all = vec![String::new()];
    let mut last = vec![String::new()];
    for _ in 0..longest {
        let mut next = Vec::new();
        for s in &last {
            for c in alphabet {
                next.push(format!("{s}{c}"));
            }
        }
        all.extend(next.iter().cloned());
        last = next;
    }
    all
}

fn scope(paths: &[&str]) -> &'static str {
    let task = TaskClassification {
        task_type: TaskType::Explore,
        targets: Vec::new(),
    };
    let files: Vec<(String, usize)> = paths.iter().map(|p| (p.to_string(), 1)).collect();
    estimate_completeness(&task, &files).as_str()
}

#[test]
fn directories_are_those_of_the_standard_library() {
    for s in words_over(&['a', '.', '/', '\\', ':'], 5) {
        // With the path of another directory beside it, one directory or two.
        for other in ["x", "a/x", "/x", "a/a/x", "a:x", "a\\x"] {
            let dirs: Vec<Option<String>> = [s.as_str(), other]
                .iter()
                .map(|p| Path::new(p).parent().and_then(|d| d.to_str()).map(str::to_string))
                .collect();
            assert_eq!(
                scope(&[s.as_str(), other]),
                completeness_of_dirs(0, &dirs).as_str(),
                "{s:?} {other:?}"
            );
        }
    }
}

fn tidied(path: &str) -> &str {
    let mut t = path;
    while t.len() > 1 && (t.ends_with('/') || t.ends_with("/.")) {
        t = &t[..t.len() - 1];
    }
    t
}

fn stated_dir(path: &str) -> Option<&str> {
    let t = tidied(path);
    match t.rfind('/') {
        _ if t.is_empty() || t == "/" => None,
        None => Some(""),
        Some(0) => Some("/"),
        Some(k) => Some(tidied(&t[..k])),
    }
}

fn std_dir(path: &str) -> Option<&str> {
    Path::new(path).parent().and_then(|d| d.to_str())
}

#[test]
fn the_stated_directory_is_that_of_the_standard_library() {
    for s in words_over(&['a', '.', '/'], 9) {
        if !s.starts_with("//") {
            assert_eq!(stated_dir(&s), std_dir(&s), "{s:?}");
        }
    }
    for s in words_over(&['a', '.', '/', '\\', ':'], 6) {
        if let Some(d) = std_dir(&s) {
            assert!(s.starts_with(d) && d.len() < s.len(), "{s:?}");
        }
    }
    assert_eq!(stated_dir("src/core/entropy.rs"), Some("src/core"));
    assert_eq!(stated_dir("./d.rs"), Some("."));
    assert_eq!(stated_dir("."), Some(""));
    assert_eq!(stated_dir("a//b/"), Some("a"));
    assert_eq!(stated_dir("a/./b"), Some("a"));
    assert_eq!(stated_dir("größe/ü.rs"), Some("größe"));
}

#[test]
fn paths_from_the_current_directory_are_counted_like_others() {
    assert_eq!(scope(&["./a/x", "./b/x", "./c/x", "./d/x"]), "SCOPE:cross-module");
    assert_eq!(scope(&["./a/x", "./a/y"]), "SCOPE:single-file");
    assert_eq!(scope(&["./a", "a"]), "SCOPE:multi-file");
    assert_eq!(scope(&["a//x", "a/./y", "a/z/", "a/w"]), "SCOPE:single-file");
}

#[test]
fn the_same_directories_are_the_same_scope() {
    let lists: [&[&str]; 3] = [
        &["a/x", "b/x", "c/x", "d/x"],
        &["d/y", "a/y", "c/y", "b/y"],
        &["a/x", "a/y", "b/x", "d/x", "c/x", "a/z"],
    ];
    for list in lists {
        assert_eq!(scope(list), "SCOPE:cross-module");
    }
    assert_eq!(scope(&["a/x", "b/x"]), scope(&["b/x", "b/y", "a/x"]));
}

#[test]
fn files_of_one_directory_are_one_scope() {
    assert_eq!(scope(&["src/a.rs", "src/b.rs"]), "SCOPE:single-file");
    assert_eq!(scope(&["a.rs", "b.rs"]), "SCOPE:single-file");
    assert_eq!(scope(&["/a.rs", "/b.rs"]), "SCOPE:single-file");
    assert_eq!(scope(&["src/a.rs", "b.rs"]), "SCOPE:multi-file");
    assert_eq!(scope(&["/a.rs", "b.rs"]), "SCOPE:multi-file");
    // The root and the empty path lie in no directory.
    assert_eq!(scope(&["/", "", "src/a.rs"]), "SCOPE:single-file");
    assert_eq!(scope(&["a/x", "b/x", "c/x"]), "SCOPE:multi-file");
    assert_eq!(scope(&["a/x", "b/x", "c/x", "d/x"]), "SCOPE:cross-module");
}

#[test]
fn directories_are_counted_once_each() {
    let dirs = |list: &[Option<&str>]| -> Vec<Option<String>> {
        list.iter().map(|d| d.map(str::to_string)).collect()
    };
    assert_eq!(completeness_of_dirs(0, &dirs(&[])).as_str(), "SCOPE:unknown");
    assert_eq!(completeness_of_dirs(1, &dirs(&[None])).as_str(), "SCOPE:single-file");
    assert_eq!(completeness_of_dirs(2, &dirs(&[None])).as_str(), "SCOPE:multi-file");
    assert_eq!(
        completeness_of_dirs(0, &dirs(&[Some("a"), Some("a"), None])).as_str(),
        "SCOPE:single-file"
    );
    assert_eq!(
        completeness_of_dirs(0, &dirs(&[Some("a"), Some("b"), Some("c"), Some("a")])).as_str(),
        "SCOPE:multi-file"
    );
    assert_eq!(
        completeness_of_dirs(0, &dirs(&[Some("a"), Some("b"), Some("c"), Some("")])).as_str(),
        "SCOPE:cross-module"
    );
}

#[test]
fn splitting_is_that_of_the_standard_library() {
    for s in words_over(&['a', ' ', '\n', '\r', ','], 6) {
        let lines: Vec<&str> = s.lines().collect();
        assert_eq!(split_lines(&s), lines, "{s:?}");
        let words: Vec<&str> = s.split_whitespace().collect();
        assert_eq!(split_words(&s), words, "{s:?}");
        let pieces: Vec<&str> = s.split(',').collect();
        assert_eq!(split_text(&s, ','), pieces, "{s:?}");
        assert_eq!(join_texts(&split_text(&s, ','), ","), s);
        assert_eq!(trim_text(&s), s.trim(), "{s:?}");
    }
}

#[test]
fn searching_is_that_of_the_standard_library() {
    for s in words_over(&['a', 'b'], 6) {
        for p in words_over(&['a', 'b'], 3) {
            assert_eq!(contains_text(&s, &p), s.contains(p.as_str()));
            assert_eq!(starts_with_text(&s, &p), s.starts_with(p.as_str()));
        }
    }
    assert!(same_ignoring_case("Coder", "cODER"));
    assert!(!same_ignoring_case("Ä", "ä"));
}

#[test]
fn numbers_are_written_and_read_in_decimal() {
    assert_eq!(decimal_text(0), "0");
    assert_eq!(decimal_text(1203), "1203");
    assert_eq!(decimal_text(u64::MAX), u64::MAX.to_string());
    assert_eq!(parse_number("0012"), Some(12));
    assert_eq!(parse_number(&usize::MAX.to_string()), Some(usize::MAX));
    assert_eq!(parse_number(&format!("{}0", usize::MAX)), None);
    assert_eq!(parse_number("18446744073709551616"), None);
    assert_eq!(parse_number(""), None);
    assert_eq!(parse_number("+1"), None);
    assert_eq!(parse_number("1a"), None);
}

#[test]
fn line_numbers_are_padded_to_four_places() {
    let content = "x\n".repeat(12000);
    assert_eq!(extract_line_range(&content, "9"), "   9| x");
    assert_eq!(extract_line_range(&content, "12000"), "12000| x");
}
