use upath::ext::split;
use upath::style::{detect_version, render, NumberStyle, Version};

fn detected(base: &str) -> Option<(String, NumberStyle, u64, Option<usize>)> {
    detect_version(base).map(|(core, v)| (core, v.style, v.number, v.pad))
}

#[test]
fn split_examples() {
    assert_eq!(split("a.b.c"), ("a", ".b.c"));
    assert_eq!(split(".a.b.c"), (".a", ".b.c"));
    assert_eq!(split(".gitignore"), (".gitignore", ""));
    assert_eq!(split("Makefile"), ("Makefile", ""));
    assert_eq!(split("a.tar.xz"), ("a", ".tar.xz"));
    assert_eq!(split(""), ("", ""));
    assert_eq!(split("."), (".", ""));
    assert_eq!(split(".."), (".", "."));
    assert_eq!(split("a."), ("a", "."));
    assert_eq!(split("报告（1）.txt"), ("报告（1）", ".txt"));
}

#[test]
fn delimiters() {
    let pairs = [
        (NumberStyle::Round, "(", ")"),
        (NumberStyle::Square, "[", "]"),
        (NumberStyle::Curly, "{", "}"),
        (NumberStyle::FullWidthRound, "（", "）"),
        (NumberStyle::FullWidthSquare, "［", "］"),
        (NumberStyle::ChineseBracket, "【", "】"),
        (NumberStyle::CornerBracket, "「", "」"),
    ];
    for (style, open, close) in pairs {
        assert_eq!(style.open(), open);
        assert_eq!(style.close(), close);
    }
    assert_eq!(NumberStyle::DEFAULT, NumberStyle::Round);
    assert_eq!(NumberStyle::probed(0), NumberStyle::Round);
    assert_eq!(NumberStyle::probed(6), NumberStyle::CornerBracket);
}

#[test]
fn detect_examples() {
    assert_eq!(detected("report[042]"), Some(("report".to_string(), NumberStyle::Square, 42, Some(3))));
    assert_eq!(detected("photo(2)"), Some(("photo".to_string(), NumberStyle::Round, 2, None)));
    assert_eq!(detected("notes_2024"), None);
    assert_eq!(detected("a (1)[2]"), Some(("a (1)".to_string(), NumberStyle::Square, 2, None)));
    assert_eq!(detected("报告（1）"), Some(("报告".to_string(), NumberStyle::FullWidthRound, 1, None)));
    assert_eq!(detected("x【10】"), Some(("x".to_string(), NumberStyle::ChineseBracket, 10, None)));
    assert_eq!(detected("x「0」"), Some(("x".to_string(), NumberStyle::CornerBracket, 0, None)));
    assert_eq!(detected("x{00}"), Some(("x".to_string(), NumberStyle::Curly, 0, Some(2))));
    assert_eq!(detected("(5)"), Some((String::new(), NumberStyle::Round, 5, None)));
    assert_eq!(detected("a((5)"), Some(("a(".to_string(), NumberStyle::Round, 5, None)));
    assert_eq!(detected("a[5)"), None);
    assert_eq!(detected("a()"), None);
    assert_eq!(detected("a(1x)"), None);
    assert_eq!(detected("a)"), None);
    assert_eq!(detected(")"), None);
    assert_eq!(detected(""), None);
    assert_eq!(detected("a(１)"), None);
}

#[test]
fn detect_limits_of_u64() {
    assert_eq!(
        detected("a(18446744073709551615)"),
        Some(("a".to_string(), NumberStyle::Round, u64::MAX, None))
    );
    assert_eq!(detected("a(18446744073709551616)"), None);
    assert_eq!(detected("a(99999999999999999999999)"), None);
    assert_eq!(
        detected("a(000000000000000000000000001)"),
        Some(("a".to_string(), NumberStyle::Round, 1, Some(27)))
    );
}

#[test]
fn render_examples() {
    assert_eq!(render(NumberStyle::Round, 7, Some(3)), "(007)");
    assert_eq!(render(NumberStyle::Square, 42, None), "[42]");
    assert_eq!(render(NumberStyle::Round, 1234, Some(2)), "(1234)");
    assert_eq!(render(NumberStyle::Curly, 0, None), "{0}");
    assert_eq!(render(NumberStyle::Round, 5, Some(1)), "(5)");
    assert_eq!(render(NumberStyle::Round, 5, Some(0)), "(5)");
    assert_eq!(render(NumberStyle::CornerBracket, 0, Some(4)), "「0000」");
    assert_eq!(render(NumberStyle::FullWidthRound, 2, None), "（2）");
    assert_eq!(render(NumberStyle::Round, u64::MAX, None), "(18446744073709551615)");
}

#[test]
fn detect_reads_back_a_render() {
    for (style, number, pad, kept) in [
        (NumberStyle::Round, 7u64, Some(3usize), Some(3usize)),
        (NumberStyle::Square, 42, None, None),
        (NumberStyle::Curly, 1234, Some(2), None),
        (NumberStyle::ChineseBracket, 0, Some(1), None),
        (NumberStyle::FullWidthSquare, 0, Some(5), Some(5)),
    ] {
        let name = format!("core({}", render(style, number, pad));
        let (core, v) = detect_version(&name).expect("a rendered suffix is detected");
        assert_eq!(core, "core(");
        assert_eq!(v, Version { style, number, pad: kept });
    }
}

#[test]
fn render_gives_back_a_detected_name() {
    for name in ["f(007)", "c[1]", "x{00}", "a (1)[2]", "报告（1）", "y【0】"] {
        let (core, v) = detect_version(name).expect("a version is detected");
        assert_eq!(format!("{core}{}", render(v.style, v.number, v.pad)), name);
    }
}
