use printa_ble::text::{
    is_whitespace, parse_unsigned, split_lines, split_on, split_words, to_decimal, to_lower,
    trimmed,
};

fn chars(s: &str) -> Vec<char> {
    s.chars().collect()
}

fn strings(parts: Vec<Vec<char>>) -> Vec<String> {
    parts.into_iter().map(|p| p.into_iter().collect()).collect()
}

#[test]
fn trimming_and_splitting_agree_with_the_standard_library() {
    for s in [
        "", " ", "a", " a b ", "\u{3000}x\u{a0}\t", "a\nb", "a\r\nb\r\n", "\n\n", "a\n\n b\r", "\r\n",
    ] {
        let c = chars(s);
        assert_eq!(trimmed(&c).iter().collect::<String>(), s.trim(), "{s:?}");
        assert_eq!(strings(split_words(&c)), s.split_whitespace().collect::<Vec<_>>(), "{s:?}");
        assert_eq!(strings(split_lines(&c)), s.lines().collect::<Vec<_>>(), "{s:?}");
        assert_eq!(strings(split_on(&c, '\n')), s.split('\n').collect::<Vec<_>>(), "{s:?}");
    }
}

#[test]
fn white_space_is_unicode_white_space() {
    for c in '\0'..='\u{3fff}' {
        assert_eq!(is_whitespace(c), c.is_whitespace(), "{c:?}");
    }
    assert!(!is_whitespace('\u{feff}'));
}

#[test]
fn numbers_read_like_unsigned_integers() {
    for s in ["", "+", "-", "0", "007", "+7", "-7", "255", "256", "1 ", "١", "18446744073709551616"] {
        assert_eq!(parse_unsigned(&chars(s), 255), s.parse::<u8>().ok().map(u64::from), "{s:?}");
        assert_eq!(parse_unsigned(&chars(s), u64::MAX), s.parse::<u64>().ok(), "{s:?}");
    }
}

#[test]
fn numbers_print_in_decimal() {
    for n in [0, 9, 10, 42, 100, 65535, u64::MAX] {
        assert_eq!(to_decimal(n).into_iter().collect::<String>(), n.to_string());
    }
}

#[test]
fn lower_case_is_ascii_only() {
    assert_eq!(to_lower(&chars("ABCxyz@[`{ÀΣ")), chars("abcxyz@[`{ÀΣ"));
}
