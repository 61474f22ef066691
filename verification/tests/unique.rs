use upath::style::NumberStyle;
use upath::unique::{resolve_utf8, Search};
use upath::Error;

fn search_at(number: u64) -> Search {
    Search {
        parent: "d".to_string(),
        core: "a".to_string(),
        style: NumberStyle::Round,
        pad: None,
        ext: ".txt".to_string(),
        number,
    }
}

#[test]
fn next_stops_on_a_free_candidate() {
    let mut s = search_at(4);
    assert!(matches!(s.next(Ok(false)), Ok(true)));
    assert_eq!(s.number, 4);
    assert_eq!(s.candidate(), "d/a(4).txt");
}

#[test]
fn next_moves_on_from_a_taken_candidate() {
    let mut s = search_at(4);
    assert!(matches!(s.next(Ok(true)), Ok(false)));
    assert_eq!(s.number, 5);
    assert_eq!(s.candidate_name(), "a(5).txt");
}

#[test]
fn next_overflows_at_the_largest_number() {
    let mut s = search_at(u64::MAX);
    assert!(matches!(s.next(Ok(true)), Err(Error::Overflow)));
    assert_eq!(s.number, u64::MAX);
    let mut s = search_at(u64::MAX);
    assert!(matches!(s.next(Ok(false)), Ok(true)));
}

#[test]
fn resolve_utf8_detects_styles() {
    let s = resolve_utf8("p".to_string(), "c[1].txt");
    assert_eq!(s.core, "c");
    assert_eq!(s.style, NumberStyle::Square);
    assert_eq!(s.number, 1);
    assert_eq!(s.pad, None);
    assert_eq!(s.ext, ".txt");

    let s = resolve_utf8("p".to_string(), "Makefile");
    assert_eq!(s.core, "Makefile");
    assert_eq!(s.style, NumberStyle::Round);
    assert_eq!(s.number, 1);
    assert_eq!(s.ext, "");
    assert_eq!(s.candidate_name(), "Makefile(1)");
}

#[test]
fn plain_search_appends_to_the_whole_name() {
    let s = Search::plain("p".to_string(), "x.y.z".to_string());
    assert_eq!(s.candidate_name(), "x.y.z(1)");
    let mut s = Search::plain(String::new(), String::new());
    assert_eq!(s.candidate_name(), "(1)");
    assert!(matches!(s.next(Ok(true)), Ok(false)));
    assert_eq!(s.candidate_name(), "(2)");
}

#[test]
fn candidates_never_repeat_on_concrete_values() {
    let mut s = search_at(1);
    let mut seen: Vec<String> = Vec::new();
    for _ in 0..20 {
        let name = s.candidate_name();
        assert!(!seen.contains(&name));
        seen.push(name);
        assert!(matches!(s.next(Ok(true)), Ok(false)));
    }
}

#[test]
fn error_messages() {
    assert_eq!(Error::Overflow.message(), "numeric suffix counter overflowed");
    assert_eq!(Error::MissingFileName.message(), "path has no file name to uniquify");
    let io = std::io::Error::new(std::io::ErrorKind::Other, "boom");
    let e: Error = Error::from(io);
    assert!(matches!(e, Error::Io(_)));
    assert_eq!(e.message(), "i/o error: boom");
    assert_eq!(upath::error::io_message("boom"), "i/o error: boom");
    assert_eq!(upath::error::io_message(""), "i/o error: ");
}

#[test]
fn next_reports_a_failed_probe() {
    let mut s = search_at(4);
    let failure = std::io::Error::new(std::io::ErrorKind::Other, "probe failed");
    assert!(matches!(s.next(Err(failure)), Err(Error::Io(_))));
    assert_eq!(s.number, 4);
    assert_eq!(s.candidate_name(), "a(4).txt");
}

#[test]
fn result_alias_is_the_crate_error() {
    let r: upath::Result<u8> = Err(Error::Overflow);
    assert!(matches!(r, Err(Error::Overflow)));
}

#[test]
fn a_run_stops_at_the_least_free_number() {
    let taken = ["a(1).txt", "a(2).txt", "a(4).txt"];
    let mut s = search_at(1);
    let mut probes = 0;
    loop {
        probes += 1;
        let name = s.candidate_name();
        if s.next(Ok(taken.contains(&name.as_str()))).expect("no overflow") {
            break;
        }
    }
    assert_eq!(s.number, 3);
    assert_eq!(probes, 3);
    assert_eq!(s.candidate(), "d/a(3).txt");
}

#[test]
fn a_run_from_the_top_overflows_after_one_probe() {
    let mut s = search_at(u64::MAX - 1);
    assert!(matches!(s.next(Ok(true)), Ok(false)));
    assert!(matches!(s.next(Ok(true)), Err(Error::Overflow)));
}
