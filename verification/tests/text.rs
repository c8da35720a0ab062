use larql_cache::text::{
    at_most, contains_char, find_char, join_lines, parse_u64, replace_char, replace_first,
    rfind_char, same_text, strip_prefix, strip_suffix, trim, trim_of, white_space,
};

const SAMPLES: [&str; 14] = [
    "", "a", "ab", "b", "models--a--b", "models--models--x", "--", "---", "a--b--c", "a/b/c",
    "\u{e9}t\u{e9}", "W/\"x\"", " \t x y \u{2003}\n", "\u{10348}/z",
];

#[test]
fn white_space_is_the_unicode_property() {
    for code in 0..=0x10ffffu32 {
        if let Some(c) = char::from_u32(code) {
            assert_eq!(white_space(c), c.is_whitespace(), "{:x}", code);
        }
    }
}

#[test]
fn text_functions_do_what_std_does() {
    for s in SAMPLES {
        assert_eq!(trim(s), s.trim());
        assert_eq!(trim_of(s, '"'), s.trim_matches('"'));
        assert_eq!(trim_of(s, '-'), s.trim_matches('-'));
        assert_eq!(replace_first(s, "--", "/"), s.replacen("--", "/", 1));
        assert_eq!(replace_char(s, '/', "--"), s.replace('/', "--"));
        assert_eq!(contains_char(s, '/'), s.contains('/'));
        for t in SAMPLES {
            assert_eq!(same_text(s, t), s == t);
            assert_eq!(at_most(s, t), s <= t);
            assert_eq!(strip_prefix(s, t), s.strip_prefix(t));
            assert_eq!(strip_suffix(s, t), s.strip_suffix(t));
        }
    }
}

#[test]
fn only_the_first_part_is_replaced() {
    assert_eq!(replace_first("a--b--c", "--", "/"), "a/b--c");
    assert_eq!(replace_first("abc", "", "x"), "xabc");
}

#[test]
fn characters_are_found_by_their_index() {
    assert_eq!(find_char("\u{e9}/b/c", '/'), Some(1));
    assert_eq!(rfind_char("\u{e9}/b/c", '/'), Some(3));
    assert_eq!(find_char("abc", '/'), None);
    assert_eq!(rfind_char("", '/'), None);
}

#[test]
fn numbers_are_read_as_std_reads_them() {
    for s in [
        "0", "7", "+7", "007", "", "+", "-1", "1 ", " 1", "1_0", "12a", "\u{661}",
        "18446744073709551615", "18446744073709551616", "99999999999999999999999",
        "1844674407370955161600",
    ] {
        assert_eq!(parse_u64(s), s.parse::<u64>().ok(), "{}", s);
    }
    assert_eq!(parse_u64("1234"), Some(1234));
}

#[test]
fn lines_are_joined() {
    let lines = vec!["a".to_string(), "b".to_string(), "".to_string()];
    assert_eq!(join_lines(&lines, "\n"), "a\nb\n");
    assert_eq!(join_lines(&Vec::new(), "\n"), "");
}
