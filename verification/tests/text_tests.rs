use mymediatrail::text::{
    chars_of, decimal_chars, normalize_separators, split_fields, split_lines, str_eq, string_of, to_lower_hex, trim,
    white_space, CharClass,
};

fn strings(v: Vec<Vec<char>>) -> Vec<String> {
    v.into_iter().map(|cs| cs.into_iter().collect()).collect()
}

#[test]
fn normalize_separators_replaces_backslashes() {
    assert_eq!(normalize_separators("C:\\Videos\\a.mkv"), "C:/Videos/a.mkv");
    assert_eq!(normalize_separators("/already/fine"), "/already/fine");
    assert_eq!(normalize_separators(""), "");
}

#[test]
fn normalize_separators_is_idempotent() {
    let once = normalize_separators("a\\b\\\\c");
    assert_eq!(normalize_separators(&once), once);
    assert!(!once.contains('\\'));
}

#[test]
fn trim_matches_std() {
    for s in ["  a b  ", "\n\tuuid-1\n", "   ", "", "x", "\u{a0}v\u{3000}"] {
        assert_eq!(trim(s), s.trim());
    }
}

#[test]
fn white_space_matches_std() {
    for c in [' ', '\t', '\n', '\r', '\u{b}', '\u{c}', '\u{85}', '\u{a0}', '\u{2003}', '\u{3000}', 'a', '-', '\u{200b}'] {
        assert_eq!(white_space(c), c.is_whitespace());
    }
}

#[test]
fn split_lines_matches_std() {
    for s in ["a\nb", "a\r\nb\r\n", "\n\nx", "", "last\r", "one"] {
        let cs = chars_of(s);
        let expect: Vec<String> = s.lines().map(|l| l.to_string()).collect();
        assert_eq!(strings(split_lines(&cs)), expect);
    }
}

#[test]
fn split_fields_on_white_space_matches_std() {
    for s in ["  /mnt/a  UUID-1 ", "one", "", "a\tb\nc", "   "] {
        let cs = chars_of(s);
        let expect: Vec<String> = s.split_whitespace().map(|w| w.to_string()).collect();
        assert_eq!(strings(split_fields(&cs, CharClass::WhiteSpace)), expect);
    }
}

#[test]
fn decimal_chars_values() {
    assert_eq!(string_of(&decimal_chars(0)), "0");
    assert_eq!(string_of(&decimal_chars(7)), "7");
    assert_eq!(string_of(&decimal_chars(1920)), "1920");
    assert_eq!(string_of(&decimal_chars(u32::MAX)), "4294967295");
}

#[test]
fn lower_hex_encoding() {
    assert_eq!(to_lower_hex(&[]), "");
    assert_eq!(to_lower_hex(&[0x00, 0x0f, 0xbe, 0xef, 0xff]), "000fbeefff");
}

#[test]
fn str_eq_compares_characters() {
    assert!(str_eq("abc", "abc"));
    assert!(!str_eq("abc", "abd"));
    assert!(!str_eq("abc", "ab"));
    assert!(str_eq("", ""));
}
