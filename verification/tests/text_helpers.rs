use verseapp::engine::{backend_kind, is_image_extension, open_failure_banner, BackendKind, FILE_SELECTION_CANCELED};
use verseapp::navigation::SETTLE_DELAY_MS;
use verseapp::text::{
    trim_flagged, whitespace_flags, chars_of, contains_str, eq_ignore_ascii_case, find_first, is_whitespace, parse_usize, push_char, split_chars,
    str_eq, string_of, to_lower, to_upper, trim, usize_to_string,
};

#[test]
fn trimming_uses_unicode_white_space() {
    assert_eq!(trim("  a b \t\n"), "a b");
    assert_eq!(trim("\u{3000}x\u{2003}"), "x");
    assert_eq!(trim("   "), "");
    assert!(is_whitespace('\u{a0}'));
    assert!(!is_whitespace('7'));
}

#[test]
fn white_space_agrees_with_std() {
    for c in (0u32..0x11000).filter_map(char::from_u32) {
        assert_eq!(is_whitespace(c), c.is_whitespace(), "{:?}", c);
    }
    assert_eq!(trim("a"), "a");
}

#[test]
fn case_mapping() {
    assert_eq!(to_upper("straße"), "STRASSE");
    assert_eq!(to_lower("ÀB"), "àb");
    assert!(eq_ignore_ascii_case("ConTROL", "control"));
    assert!(!eq_ignore_ascii_case("Àb", "àb"));
}

#[test]
fn decimal_round_trip() {
    assert_eq!(usize_to_string(0), "0");
    assert_eq!(usize_to_string(40213), "40213");
    assert_eq!(parse_usize("40213"), Some(40213));
    assert_eq!(parse_usize("+7"), Some(7));
    assert_eq!(parse_usize(""), None);
    assert_eq!(parse_usize("-1"), None);
    assert_eq!(parse_usize("1 2"), None);
    assert_eq!(parse_usize("99999999999999999999999"), None);
}

#[test]
fn searching_and_splitting() {
    assert!(contains_str("hello world", "o w"));
    assert!(!contains_str("hello", "hello!"));
    assert!(contains_str("abc", ""));
    assert!(str_eq("abc", "abc"));
    assert!(!str_eq("abc", "abd"));
    let hay = chars_of("a--b--c");
    assert_eq!(find_first(&hay, &chars_of("--"), 0), Some(1));
    assert_eq!(find_first(&hay, &chars_of("--"), 2), Some(4));
    assert_eq!(find_first(&hay, &chars_of("x"), 0), None);
    let parts: Vec<String> = split_chars(&hay, &chars_of("--")).iter().map(|p| string_of(p)).collect();
    assert_eq!(parts, vec!["a", "b", "c"]);
    let edge: Vec<String> = split_chars(&chars_of("_x_"), &chars_of("_")).iter().map(|p| string_of(p)).collect();
    assert_eq!(edge, vec!["", "x", ""]);
}

#[test]
fn pushing_characters() {
    let mut s = String::from("ab");
    push_char(&mut s, 'é');
    assert_eq!(s, "abé");
}

#[test]
fn engines_by_extension() {
    assert_eq!(backend_kind("DjVu"), BackendKind::DjVu);
    assert_eq!(backend_kind("docx"), BackendKind::Docx);
    assert_eq!(backend_kind("PDF"), BackendKind::MuPdf);
    assert_eq!(backend_kind(""), BackendKind::MuPdf);
    assert!(is_image_extension("CBZ"));
    assert!(is_image_extension("jpeg"));
    assert!(!is_image_extension("epub"));
}

#[test]
fn trimming_by_flags() {
    let s = chars_of(" a b\t");
    let flags = whitespace_flags(&s);
    assert_eq!(flags, vec![true, false, true, false, true]);
    assert_eq!(string_of(&trim_flagged(&s, &flags)), "a b");
    let all = chars_of("xyz");
    assert_eq!(string_of(&trim_flagged(&all, &vec![true, false, true])), "y");
    assert_eq!(string_of(&trim_flagged(&all, &vec![true, true, true])), "");
    assert_eq!(string_of(&trim_flagged(&Vec::new(), &Vec::new())), "");
}

#[test]
fn failed_open_banner() {
    assert_eq!(open_failure_banner(FILE_SELECTION_CANCELED), None);
    assert_eq!(open_failure_banner("File selection canceled"), None);
    assert_eq!(open_failure_banner("bad header"), Some("Failed to open document: bad header".to_string()));
    assert_eq!(SETTLE_DELAY_MS, 180);
}
