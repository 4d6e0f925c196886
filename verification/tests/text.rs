use matalu::text::blank;
use matalu::text::contains_text;
use matalu::text::join_words;
use matalu::text::parse_u64;
use matalu::text::same_text;
use matalu::text::split_words;
use matalu::text::strip_text;
use matalu::text::to_decimal;
use matalu::text::Strip;

#[test]
fn words_are_split_at_any_white_space() {
    let s = " one\ttwo\u{3000}three \n\u{a0}four";
    assert_eq!(split_words(s), vec!["one", "two", "three", "four"]);
    assert_eq!(split_words(s), s.split_whitespace().collect::<Vec<&str>>());
    assert!(split_words(" \u{2003} ").is_empty());
    assert_eq!(join_words(&split_words(s)), "one two three four");
}

/// White space is exactly what the Unicode property lists.
#[test]
fn white_space_is_the_listed_characters() {
    for n in 0..=0x10ffffu32 {
        if let Some(c) = char::from_u32(n) {
            let listed = matches!(
                n,
                0x09..=0x0d | 0x20 | 0x85 | 0xa0 | 0x1680 | 0x2000..=0x200a | 0x2028 | 0x2029
                    | 0x202f | 0x205f | 0x3000
            );
            assert_eq!(blank(c.encode_utf8(&mut [0; 4])), listed, "U+{n:04X}");
        }
    }
}

#[test]
fn words_survive_joining() {
    let ws = vec!["a".to_string(), "bé".to_string(), "c".to_string()];
    assert_eq!(split_words(&join_words(&ws)), ws);
    assert_eq!(join_words(&Vec::new()), "");
}

#[test]
fn stripping_takes_both_ends() {
    assert_eq!(strip_text(Strip::WhiteSpace, "\u{2003} a b \n"), "a b");
    assert_eq!(strip_text(Strip::NonAlphanumeric, "«(don't!»"), "don't");
    assert_eq!(strip_text(Strip::NonAlphanumeric, "--é٣--"), "é٣");
    assert_eq!(strip_text(Strip::NonAlphanumeric, "--"), "");
    assert!(blank("\u{a0}\t"));
    assert!(!blank(" . "));
}

#[test]
fn numbers_are_read_as_the_standard_library_does() {
    for s in [
        "0", "7", "+7", "007", "18446744073709551615", "18446744073709551616", "", "+", "-1",
        " 1", "1 ", "1_0", "٣", "++1", "99999999999999999999999",
    ] {
        assert_eq!(parse_u64(s), s.parse::<u64>().ok(), "{s:?}");
    }
    for n in [0, 9, 10, 700, u64::MAX] {
        assert_eq!(to_decimal(n), n.to_string());
        assert_eq!(parse_u64(&to_decimal(n)), Some(n));
    }
}

#[test]
fn parts_are_found() {
    assert!(contains_text("abc", "bc"));
    assert!(contains_text("abc", ""));
    assert!(!contains_text("abc", "cb"));
    assert!(!contains_text("", "a"));
    assert!(contains_text("{\"type\":\"ready\"}", "\"ready\""));
    assert!(same_text("é", "é"));
    assert!(!same_text("é", "e"));
}
