//! Tree listing: filtering, ordering, depth bounding and language tags.

use scout94::browser::build_tree;
use scout94::browser::detect_language;
use scout94::browser::file_entry_info;
use scout94::browser::filter_screenshots;
use scout94::browser::is_minified;
use scout94::browser::is_screenshot_path;
use scout94::browser::screenshots_dir;
use scout94::browser::FileNode;
use scout94::browser::RawEntry;

fn file(name: &str, head: &[u8]) -> RawEntry {
    RawEntry {
        name: String::from(name),
        path: format!("/p/{}", name),
        is_directory: false,
        head: head.to_vec(),
        children: Vec::new(),
    }
}

fn dir(name: &str, children: Vec<RawEntry>) -> RawEntry {
    RawEntry {
        name: String::from(name),
        path: format!("/p/{}", name),
        is_directory: true,
        head: Vec::new(),
        children,
    }
}

fn normal_js_head() -> Vec<u8> {
    // Plenty of line breaks in a non-trivial probe.
    b"function hello() {\n  return 1;\n}\n\nfunction world() {\n  return 2;\n}\n\nconsole.log(hello() + world());\n// trailing notes\n"
        .to_vec()
}

fn minified_js_head() -> Vec<u8> {
    let mut head = vec![b'x'; 400];
    head[0] = b'v';
    head
}

fn names(nodes: &[FileNode]) -> Vec<&str> {
    nodes.iter().map(|n| n.name.as_str()).collect()
}

#[test]
fn language_tags_follow_the_extension() {
    assert_eq!(detect_language("main.rs").as_deref(), Some("rust"));
    assert_eq!(detect_language("app.js").as_deref(), Some("javascript"));
    assert_eq!(detect_language("page.tsx").as_deref(), Some("tsx"));
    assert_eq!(detect_language("query.sql").as_deref(), Some("sql"));
    assert_eq!(detect_language("a.b.ts").as_deref(), Some("typescript"));
    assert_eq!(detect_language("header.hpp").as_deref(), Some("cpp"));
}

#[test]
fn language_matching_ignores_case() {
    assert_eq!(detect_language("MAIN.RS").as_deref(), Some("rust"));
    assert_eq!(detect_language("Page.Html").as_deref(), Some("html"));
}

#[test]
fn unrecognized_names_get_the_text_tag() {
    assert_eq!(detect_language("Makefile").as_deref(), Some("text"));
    assert_eq!(detect_language("notes.unknown").as_deref(), Some("text"));
    assert_eq!(detect_language("Dockerfile").as_deref(), Some("dockerfile"));
}

#[test]
fn minified_names_are_detected_outright() {
    assert!(is_minified("app.min.js", &Vec::new()));
    assert!(is_minified("style.min.css", &Vec::new()));
}

#[test]
fn dense_script_heads_are_detected_as_minified() {
    assert!(is_minified("app.js", &minified_js_head()));
    assert!(!is_minified("app.js", &normal_js_head()));
    // A trivial probe is never called minified.
    assert!(!is_minified("app.js", &vec![b'x'; 100]));
    // The content heuristic applies to script extensions only.
    assert!(!is_minified("data.csv", &minified_js_head()));
}

#[test]
fn minified_files_are_excluded_and_normal_ones_kept() {
    let out = build_tree(
        &vec![file("app.min.js", &minified_js_head()), file("app.js", &normal_js_head())],
        5,
    );
    assert_eq!(names(&out), vec!["app.js"]);
    assert_eq!(out[0].language.as_deref(), Some("javascript"));
    assert!(!out[0].is_directory);
    assert!(out[0].children.is_none());
}

#[test]
fn ignored_and_hidden_names_never_appear() {
    let out = build_tree(
        &vec![
            dir("node_modules", vec![file("inner.js", &normal_js_head())]),
            dir("src", Vec::new()),
            file(".DS_Store", b""),
            file(".secret", b""),
            file("kept.txt", b"one\ntwo\nthree\n"),
            dir(".git", Vec::new()),
        ],
        5,
    );
    assert_eq!(names(&out), vec!["src", "kept.txt"]);
}

#[test]
fn ignore_matching_is_by_substring() {
    // "layout.css" contains the ignored substring "out"; the match is on
    // any part of the name, not whole components.
    let out = build_tree(
        &vec![file("layout.css", b"a\nb\nc\n"), file("main.css", b"a\nb\nc\n")],
        5,
    );
    assert_eq!(names(&out), vec!["main.css"]);
}

#[test]
fn extension_keys_come_after_the_last_dot() {
    assert_eq!(detect_language(".env").as_deref(), Some("text"));
    assert_eq!(detect_language("archive.tar.gz").as_deref(), Some("text"));
    assert_eq!(detect_language("trailing.").as_deref(), Some("text"));
}

#[test]
fn listing_never_recurses_past_the_depth_bound() {
    let deep = dir(
        "level1",
        vec![dir("level2", vec![dir("level3", vec![file("deep.txt", b"a\nb\nc\n")])])],
    );
    let out = build_tree(&vec![deep], 2);
    assert_eq!(names(&out), vec!["level1"]);
    let level2 = out[0].children.as_ref().expect("one level below the root is in budget");
    assert_eq!(names(level2), vec!["level2"]);
    // The bound is spent: level2 contributed nothing, so no children at all.
    assert!(level2[0].children.is_none());
}

#[test]
fn a_zero_depth_listing_is_empty() {
    let out = build_tree(&vec![file("kept.txt", b"x\ny\nz\n")], 0);
    assert!(out.is_empty());
}

#[test]
fn directories_sort_before_files_case_insensitively() {
    let out = build_tree(
        &vec![
            file("b.txt", b"1\n2\n3\n"),
            dir("Zeta", Vec::new()),
            file("Alpha.txt", b"1\n2\n3\n"),
            dir("alpha", Vec::new()),
        ],
        5,
    );
    assert_eq!(names(&out), vec!["alpha", "Zeta", "Alpha.txt", "b.txt"]);
    assert!(out[0].is_directory && out[1].is_directory);
    assert!(!out[2].is_directory && !out[3].is_directory);
}

#[test]
fn every_level_is_sorted() {
    let out = build_tree(
        &vec![dir(
            "root",
            vec![
                file("zz.rs", b"a\nb\nc\n"),
                dir("sub", Vec::new()),
                file("AA.rs", b"a\nb\nc\n"),
            ],
        )],
        5,
    );
    let inner = out[0].children.as_ref().expect("the root directory has children");
    assert_eq!(names(inner), vec!["sub", "AA.rs", "zz.rs"]);
}

#[test]
fn childless_directories_carry_no_child_list() {
    let out = build_tree(
        &vec![dir("empty", Vec::new()), dir("only_ignored", vec![dir(".git", Vec::new())])],
        5,
    );
    assert_eq!(names(&out), vec!["empty", "only_ignored"]);
    assert!(out[0].children.is_none());
    assert!(out[1].children.is_none());
}

#[test]
fn directories_carry_no_language() {
    let out = build_tree(&vec![dir("src", vec![file("a.py", b"1\n2\n3\n")])], 5);
    assert!(out[0].language.is_none());
    let inner = out[0].children.as_ref().unwrap();
    assert_eq!(inner[0].language.as_deref(), Some("python"));
}

#[test]
fn flat_listing_sizes_files_only() {
    let f = file_entry_info(String::from("a.txt"), String::from("/p/a.txt"), false, true, 42);
    assert_eq!(f.size, Some(42));
    assert!(!f.is_directory);
    let d = file_entry_info(String::from("src"), String::from("/p/src"), true, false, 0);
    assert_eq!(d.size, None);
    assert!(d.is_directory);
}

#[test]
fn screenshot_listing_keeps_images_only() {
    assert_eq!(screenshots_dir("/proj"), "/proj/screenshots");
    assert!(is_screenshot_path("/proj/screenshots/a.png"));
    assert!(is_screenshot_path("/proj/screenshots/b.jpg"));
    assert!(!is_screenshot_path("/proj/screenshots/notes.txt"));
    let paths = vec![
        String::from("/s/a.png"),
        String::from("/s/notes.txt"),
        String::from("/s/c.jpg"),
    ];
    assert_eq!(
        filter_screenshots(&paths),
        vec![String::from("/s/a.png"), String::from("/s/c.jpg")]
    );
}
