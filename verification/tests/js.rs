use jukebox::js::{
    iso_from_ms, iso_now, ms_from_iso, normalize_posix, now_ms, normalize_win32, number_literal, parse_int,
    path_join_on, trim, NumberLiteral,
};
use jukebox::library::js as library_js;

#[test]
fn js_trim_matches_javascript() {
    assert_eq!(trim(" \t\u{feff}x\u{a0}\n"), "x");
    assert_eq!(trim("\u{85}x\u{85}"), "\u{85}x\u{85}");
    assert_eq!(trim(" \u{2003} "), "");
}

#[test]
fn trim_matches_javascript() {
    assert_eq!(library_js::trim(" \t\u{feff}x\u{a0}\n"), "x");
    assert_eq!(library_js::trim("\u{85}x\u{85}"), "\u{85}x\u{85}");
    assert_eq!(library_js::trim(" \u{2003} "), "");
}

#[test]
fn js_parse_int_matches_javascript() {
    assert_eq!(parse_int("3/12"), Some(3));
    assert_eq!(parse_int("07"), Some(7));
    assert_eq!(parse_int("  -4x"), Some(-4));
    assert_eq!(parse_int("+9"), Some(9));
    assert_eq!(parse_int("A1"), None);
    assert_eq!(parse_int(""), None);
    assert_eq!(parse_int("-"), None);
    assert_eq!(parse_int("2001-05-02"), Some(2001));
}

#[test]
fn parse_int_matches_javascript() {
    assert_eq!(library_js::parse_int("3/12"), Some(3));
    assert_eq!(library_js::parse_int("07"), Some(7));
    assert_eq!(library_js::parse_int("  -4x"), Some(-4));
    assert_eq!(library_js::parse_int("+9"), Some(9));
    assert_eq!(library_js::parse_int("A1"), None);
    assert_eq!(library_js::parse_int(""), None);
    assert_eq!(library_js::parse_int("-"), None);
    assert_eq!(library_js::parse_int("2001-05-02"), Some(2001));
}

#[test]
fn js_posix_normalize_matches_node() {
    assert_eq!(normalize_posix("/Users/me/MUSIC//music"), "/Users/me/MUSIC/music");
    assert_eq!(normalize_posix("/a/b/../c/./d"), "/a/c/d");
    assert_eq!(normalize_posix("/../a"), "/a");
    assert_eq!(normalize_posix("a/../../b"), "../b");
    assert_eq!(normalize_posix("//srv/music/"), "/srv/music/");
    assert_eq!(normalize_posix(""), ".");
    assert_eq!(normalize_posix("./"), "./");
    assert_eq!(normalize_posix("/"), "/");
}

#[test]
fn posix_normalize_matches_node() {
    assert_eq!(library_js::normalize_posix("/Users/me/MUSIC//music"), "/Users/me/MUSIC/music");
    assert_eq!(library_js::normalize_posix("/a/b/../c/./d"), "/a/c/d");
    assert_eq!(library_js::normalize_posix("/../a"), "/a");
    assert_eq!(library_js::normalize_posix("a/../../b"), "../b");
    assert_eq!(library_js::normalize_posix("//srv/music/"), "/srv/music/");
    assert_eq!(library_js::normalize_posix(""), ".");
    assert_eq!(library_js::normalize_posix("./"), "./");
    assert_eq!(library_js::normalize_posix("/"), "/");
}

#[test]
fn js_win32_normalize_matches_node() {
    assert_eq!(normalize_win32("C:/Music//Albums/"), "C:\\Music\\Albums\\");
    assert_eq!(normalize_win32("C:\\Music\\..\\Other\\x.mp3"), "C:\\Other\\x.mp3");
    assert_eq!(normalize_win32("C:"), "C:.");
    assert_eq!(normalize_win32("C:\\"), "C:\\");
    assert_eq!(normalize_win32("\\\\nas\\music\\a\\..\\b"), "\\\\nas\\music\\b");
    assert_eq!(normalize_win32("\\\\nas\\music"), "\\\\nas\\music\\");
    assert_eq!(normalize_win32("\\Music\\.\\x"), "\\Music\\x");
    assert_eq!(normalize_win32("music\\..\\..\\x"), "..\\x");
}

#[test]
fn win32_normalize_matches_node() {
    assert_eq!(library_js::normalize_win32("C:/Music//Albums/"), "C:\\Music\\Albums\\");
    assert_eq!(library_js::normalize_win32("C:\\Music\\..\\Other\\x.mp3"), "C:\\Other\\x.mp3");
    assert_eq!(library_js::normalize_win32("C:"), "C:.");
    assert_eq!(library_js::normalize_win32("C:\\"), "C:\\");
    assert_eq!(library_js::normalize_win32("\\\\nas\\music\\a\\..\\b"), "\\\\nas\\music\\b");
    assert_eq!(library_js::normalize_win32("\\\\nas\\music"), "\\\\nas\\music\\");
    assert_eq!(library_js::normalize_win32("\\Music\\.\\x"), "\\Music\\x");
    assert_eq!(library_js::normalize_win32("music\\..\\..\\x"), "..\\x");
}

#[test]
fn path_join_normalizes_like_node_on_each_platform() {
    assert_eq!(path_join_on("/music/", "a.mp3", '/'), "/music/a.mp3");
    assert_eq!(path_join_on("/music//x/..", "a.mp3", '/'), "/music/a.mp3");
    assert_eq!(path_join_on("C:\\Music\\", "a.mp3", '\\'), "C:\\Music\\a.mp3");
    assert_eq!(path_join_on("C:/Music", "sub/a.mp3", '\\'), "C:\\Music\\sub\\a.mp3");
    let joined = library_js::path_join("/music", "a.mp3");
    assert!(joined == "/music/a.mp3" || joined == "\\music\\a.mp3", "{joined}");
}

#[test]
fn number_literals_take_their_javascript_shapes() {
    assert!(matches!(number_literal("  "), NumberLiteral::Empty));
    match number_literal("0x1F") {
        NumberLiteral::Radix { radix, digits } => {
            assert_eq!(radix, 16);
            assert_eq!(digits, vec![1, 15]);
        }
        _ => panic!("0x1F is a hex literal"),
    }
    match number_literal("0b101") {
        NumberLiteral::Radix { radix, digits } => {
            assert_eq!(radix, 2);
            assert_eq!(digits, vec![1, 0, 1]);
        }
        _ => panic!("0b101 is a binary literal"),
    }
    assert!(matches!(number_literal("-Infinity"), NumberLiteral::Infinity { negative: true }));
    match number_literal(" 1e3 ") {
        NumberLiteral::Decimal { text } => assert_eq!(text, "1e3"),
        _ => panic!("1e3 is a decimal literal"),
    }
    match number_literal("  .5") {
        NumberLiteral::Decimal { text } => assert_eq!(text, ".5"),
        _ => panic!(".5 is a decimal literal"),
    }
    for nan in ["-0x10", "e5", "1e", "inf", "NaN", "1_000", "12abc", "0x", "\u{663}"] {
        assert!(matches!(number_literal(nan), NumberLiteral::NotANumber), "{nan:?}");
    }
}

#[test]
fn dates_print_and_read_like_javascript() {
    assert_eq!(iso_from_ms(0), "1970-01-01T00:00:00.000Z");
    assert_eq!(iso_from_ms(1_787_512_517_837), "2026-08-23T19:15:17.837Z");
    assert_eq!(ms_from_iso("2026-08-23T19:15:17.837Z"), Some(1_787_512_517_837));
    assert_eq!(ms_from_iso("not a date"), None);
}

#[test]
fn posix_normalized_paths_are_clean() {
    for p in ["a//b/", "../../x/../y", "/../a//./b/..", "./", "//", "a/../.."] {
        let r = normalize_posix(p);
        assert!(!r.is_empty() && !r.contains("//"), "{p} -> {r}");
        assert_eq!(r.starts_with('/'), p.starts_with('/'), "{p} -> {r}");
        assert_eq!(normalize_posix(&r), r, "normalizing {p} again changes nothing");
    }
    assert_eq!(normalize_posix("../../x/../y"), "../../y");
    assert_eq!(normalize_posix("/../a//./b/.."), "/a");
    assert_eq!(normalize_posix("a/../.."), "..");
}

#[test]
fn the_clock_reads_as_milliseconds_since_1970() {
    let ms = now_ms().expect("a present-day clock is in range");
    assert!(ms > 1_600_000_000_000, "{ms}");
    let iso = iso_now().unwrap();
    assert_eq!(iso.len(), 24, "{iso}");
    assert!(iso.ends_with('Z'), "{iso}");
    assert!(ms_from_iso(&iso).unwrap() >= ms);
}
