//! Input/output scenario tests for the public `upath` API.
//!
//! The file system is stood in for by a list of names that "exist" in one
//! directory; the search is driven exactly as a caller drives it on disk.

use upath::{upath, Resolution};

const DIR: &str = "scratch";

/// Run `name` through the search in `DIR`, with `existing` holding the
/// files that are taken, and return the resulting file name.
fn resolve(existing: &[String], name: &str) -> String {
    let taken = |path: &str| existing.iter().any(|f| format!("{DIR}/{f}") == path);
    let path = format!("{DIR}/{name}");
    let found = match upath(&path, Ok(taken(&path))).expect("upath") {
        Resolution::Free(p) => p,
        Resolution::Search(mut search) => loop {
            let candidate = search.candidate();
            if search.next(Ok(taken(&candidate))).expect("search") {
                break candidate;
            }
        },
    };
    assert!(!taken(&found), "result must not exist: {found:?}");
    found.strip_prefix(&format!("{DIR}/")).expect("stays in the directory").to_string()
}

#[test]
fn input_output_scenarios() {
    let mut existing: Vec<String> = Vec::new();

    // (files that already exist, input, expected output)
    let cases: &[(&[&str], &str, &str)] = &[
        // A mixed `(1)[2]` suffix: only the trailing group is the version.
        (&["a (1)[2].txt"], "a (1)[2].txt", "a (1)[3].txt"),
        // Plain first collision.
        (&["a.txt"], "a.txt", "a(1).txt"),
        // An existing round-bracket suffix is continued.
        (&["b.txt", "b(1).txt", "b(2).txt"], "b.txt", "b(3).txt"),
        // Square brackets are detected and continued.
        (&["c[1].txt"], "c[1].txt", "c[2].txt"),
        // Split at the FIRST dot: `.tar.xz` is kept whole.
        (&["d.tar.xz"], "d.tar.xz", "d(1).tar.xz"),
        // Multi-dot fallback.
        (&["e.b.c"], "e.b.c", "e(1).b.c"),
        // A leading dot belongs to the name.
        (&[".a.b.c"], ".a.b.c", ".a(1).b.c"),
        // Dot-files get the suffix at the very end.
        (&[".gitignore"], ".gitignore", ".gitignore(1)"),
        // No extension at all.
        (&["Makefile"], "Makefile", "Makefile(1)"),
        // Zero padding is preserved.
        (&["f(007).txt"], "f(007).txt", "f(008).txt"),
        // Chinese full-width brackets.
        (&["报告（1）.txt"], "报告（1）.txt", "报告（2）.txt"),
        // A free path is returned unchanged.
        (&[], "free.txt", "free.txt"),
    ];

    for (files, input, expected) in cases {
        for f in *files {
            existing.push(f.to_string());
        }
        assert_eq!(resolve(&existing, input), *expected, "input: {input}");
    }
}

#[test]
fn free_path_is_returned_unchanged() {
    match upath("some/dir/free.txt", Ok(false)) {
        Ok(Resolution::Free(p)) => assert_eq!(p, "some/dir/free.txt"),
        _ => panic!("a free path must come back as it is"),
    }
}

#[test]
fn root_has_no_file_name() {
    assert!(matches!(upath("/", Ok(true)), Err(upath::Error::MissingFileName)));
    assert!(matches!(upath("a/..", Ok(true)), Err(upath::Error::MissingFileName)));
}

#[test]
fn candidates_stay_in_the_parent_directory() {
    let search = match upath("dir/sub/a.txt", Ok(true)) {
        Ok(Resolution::Search(s)) => s,
        _ => panic!("an existing file starts a search"),
    };
    assert_eq!(search.parent, "dir/sub");
    assert_eq!(search.candidate_name(), "a(1).txt");
    assert_eq!(search.candidate(), "dir/sub/a(1).txt");
}

#[test]
fn bare_name_has_empty_parent() {
    let search = match upath("a.txt", Ok(true)) {
        Ok(Resolution::Search(s)) => s,
        _ => panic!("an existing file starts a search"),
    };
    assert_eq!(search.parent, "");
    assert_eq!(search.candidate(), "a(1).txt");
}

#[test]
fn absolute_path_keeps_its_directory() {
    let search = match upath("/tmp/x", Ok(true)) {
        Ok(Resolution::Search(s)) => s,
        _ => panic!("an existing file starts a search"),
    };
    assert_eq!(search.candidate(), "/tmp/x(1)");
}

#[test]
fn resolves_b_sequence_probing_in_order() {
    let existing: Vec<String> =
        vec!["b.txt".to_string(), "b(1).txt".to_string(), "b(2).txt".to_string()];
    assert_eq!(resolve(&existing, "b(1).txt"), "b(3).txt");
    assert_eq!(resolve(&existing, "b.txt"), "b(3).txt");
}

#[test]
fn a_search_starts_at_an_existing_number() {
    // The first candidate of a numbered name is the name itself.
    let search = match upath("f(007).txt", Ok(true)) {
        Ok(Resolution::Search(s)) => s,
        _ => panic!("an existing file starts a search"),
    };
    assert_eq!(search.candidate_name(), "f(007).txt");
    assert_eq!(search.number, 7);
    assert_eq!(search.pad, Some(3));
}

#[test]
fn failed_existence_query_is_an_io_error() {
    let denied = std::io::Error::new(std::io::ErrorKind::PermissionDenied, "denied");
    match upath("/tmp/locked/a.txt", Err(denied)) {
        Err(upath::Error::Io(e)) => assert_eq!(e.kind(), std::io::ErrorKind::PermissionDenied),
        _ => panic!("an I/O failure must be reported, not taken as 'free'"),
    }
}
