use std::path::Path;
use projects_rs::paths::join;
use projects_rs::text::{
    drop_last_bytes, is_whitespace_char, split_whitespace, to_decimal, trim, underscore_spaces,
};

#[test]
fn trim_matches_std() {
    for s in ["", "   ", "  a b  ", "\t\nx\r\n", "\u{3000}wide\u{a0}", "none", " \u{85}mid dle\u{2028} "] {
        assert_eq!(trim(s), s.trim(), "input {:?}", s);
    }
}

#[test]
fn whitespace_matches_std() {
    for c in ['\t', '\n', '\u{b}', '\u{c}', '\r', ' ', '\u{85}', '\u{a0}', '\u{1680}', '\u{2000}', '\u{200a}', '\u{2028}', '\u{2029}', '\u{202f}', '\u{205f}', '\u{3000}', 'a', '_', '\u{200b}', '\u{180e}', '\u{feff}', '0'] {
        assert_eq!(is_whitespace_char(c), c.is_whitespace(), "char {:?}", c);
    }
}

#[test]
fn split_whitespace_matches_std() {
    for s in ["", "  ", "123", "123 456\n", "  1\t 2  3 ", "\u{3000}a\u{a0}b"] {
        let expected: Vec<String> = s.split_whitespace().map(|w| w.to_string()).collect();
        assert_eq!(split_whitespace(s), expected, "input {:?}", s);
    }
}

#[test]
fn underscores_replace_spaces() {
    assert_eq!(underscore_spaces("2024-01-02 03:04:05+00:00"), "2024-01-02_03:04:05+00:00");
    assert_eq!(underscore_spaces("a  b"), "a__b");
    assert_eq!(underscore_spaces("a\tb"), "a\tb");
}

#[test]
fn decimal_matches_to_string() {
    for n in [0u64, 7, 10, 99, 100, 12345, u32::MAX as u64, u64::MAX] {
        assert_eq!(to_decimal(n), n.to_string());
    }
}

#[test]
fn join_matches_path_join() {
    for (base, rel) in [("/home/u", "logs"), ("/home/u/", "logs"), ("", "x"), ("/a", "/etc/passwd"), ("rel", "b.toml"), ("/", "x")] {
        let expected = Path::new(base).join(rel).to_str().unwrap().to_string();
        assert_eq!(join(base, rel), expected, "{:?} {:?}", base, rel);
    }
}

#[test]
fn drop_last_bytes_cuts_bytes() {
    assert_eq!(drop_last_bytes("web.toml", 5), "web");
    assert_eq!(drop_last_bytes("ünï.toml", 5), "ünï");
    assert_eq!(drop_last_bytes("abcde", 5), "");
}

#[test]
fn words_are_the_input_without_white_space() {
    for s in ["  a bc\td \n", "", "xyz", "\u{3000}p\u{a0}q "] {
        let joined: String = split_whitespace(s).concat();
        let stripped: String = s.chars().filter(|c| !c.is_whitespace()).collect();
        assert_eq!(joined, stripped);
    }
}
