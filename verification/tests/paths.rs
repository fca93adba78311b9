use bootc_verified::paths::{
    component_count, components_of, file_name_of, join_path, path_starts_with, same_path, Component,
    PathSet,
};
use bootc_verified::text::{
    clamp, cut_once, lines_of, number_string, signed_decimal_of, split_at_char, trimmed,
    unsigned_of, words_of, Class,
};
use std::path::Path;

/// Paths that are written in many ways.
const PATHS: [&str; 14] = [
    "", "/", "//", ".", "./", "a", "/a", "a/", "a/./b", "./a", "../a", "/a//b/", "a/b", "/a/../b",
];

#[test]
fn paths_agree_with_std() {
    for a in PATHS {
        assert_eq!(component_count(a), Path::new(a).components().count(), "{a:?}");
        let name = Path::new(a).file_name().map(|n| n.to_str().unwrap().to_string());
        assert_eq!(file_name_of(a), name, "{a:?}");
        for b in PATHS {
            assert_eq!(same_path(a, b), Path::new(a) == Path::new(b), "{a:?} {b:?}");
            assert_eq!(
                path_starts_with(a, b),
                Path::new(a).starts_with(b),
                "{a:?} {b:?}"
            );
            assert_eq!(
                join_path(a, b),
                Path::new(a).join(b).to_str().unwrap(),
                "{a:?} {b:?}"
            );
        }
    }
    let c = components_of("./x/..");
    assert!(matches!(c[0], Component::Current));
    assert!(matches!(c[2], Component::Parent));
}

#[test]
fn sets_of_paths() {
    let mut a = PathSet::new();
    a.insert("/x");
    a.insert("/x/");
    a.insert("/y");
    let mut b = PathSet::new();
    b.insert("/y");
    assert!(!a.same_as(&b));
    assert!(b.same_without(&a, "/x//"));
    assert!(!b.same_without(&a, "/y"));
    b.insert("/x/.");
    assert!(a.same_as(&b));
    assert!(a.contains("//x"));
    assert!(!a.contains("x"));
}

#[test]
fn texts_agree_with_std() {
    for s in ["", "a", "a\n", "\n", "a\r\nb\r", "a\n\nb", "\r\n"] {
        let expected: Vec<&str> = s.lines().collect();
        assert_eq!(lines_of(s), expected, "{s:?}");
    }
    for s in ["", " a  b ", "\u{a0}x\u{2003}y", "\u{b}z"] {
        let white: Vec<&str> = s.split_whitespace().collect();
        assert_eq!(words_of(s, Class::White), white, "{s:?}");
        let ascii: Vec<&str> = s.split_ascii_whitespace().collect();
        assert_eq!(words_of(s, Class::AsciiWhite), ascii, "{s:?}");
        assert_eq!(trimmed(s), s.trim(), "{s:?}");
    }
    for s in ["", ",", "a,,b", "a,b,"] {
        let parts: Vec<&str> = s.split(',').collect();
        assert_eq!(split_at_char(s, ','), parts, "{s:?}");
    }
    assert_eq!(
        cut_once("a - b - c", " - "),
        Some(("a".to_string(), "b - c".to_string()))
    );
    assert_eq!(cut_once("abc", " - "), None);
    for s in ["0", "+7", "255", "256", "-1", "", "+", "08"] {
        assert_eq!(
            unsigned_of(s, 10, 255),
            s.parse::<u8>().ok().map(u64::from),
            "{s:?}"
        );
    }
    assert_eq!(number_string(255, 16, 4), "00ff");
    assert_eq!(number_string(255, 16, 1), "ff");
    assert_eq!(signed_decimal_of(i32::MIN), i32::MIN.to_string());
    assert_eq!(clamp("aé", 2), "é");
}
