//! The string helpers against the std functions they stand for.

use rusty_projects::text::{
    concat_strs, is_whitespace, join_from, parse_u32, push_char, split_words, str_eq, to_ascii_lowercase, trim,
    u32_to_string, with_number,
};

const SAMPLES: [&str; 12] = [
    "",
    "   ",
    "word",
    "  two words  ",
    "\tTabs\tand\nnewlines\r\n",
    "\u{a0}nbsp\u{2003}em\u{3000}ideographic\u{85}",
    "MiXeD CaSe ÄÖÜ ß",
    "a  b   c",
    "笔记 本",
    "\u{200b}zero-width is not whitespace\u{200b}",
    "\u{1680}ogham\u{2028}line\u{2029}para\u{202f}\u{205f}",
    "trailing ",
];

#[test]
fn whitespace_matches_std_for_every_char() {
    for c in (0u32..=0x10ffff).filter_map(char::from_u32) {
        assert_eq!(is_whitespace(c), c.is_whitespace(), "{:#x}", c as u32);
    }
}

#[test]
fn trim_matches_std() {
    for s in SAMPLES {
        assert_eq!(trim(s), s.trim(), "{s:?}");
    }
}

#[test]
fn split_words_matches_split_whitespace() {
    for s in SAMPLES {
        let expected: Vec<&str> = s.split_whitespace().collect();
        assert_eq!(split_words(s), expected, "{s:?}");
    }
}

#[test]
fn lowercase_matches_std() {
    for s in SAMPLES {
        assert_eq!(to_ascii_lowercase(s), s.to_ascii_lowercase(), "{s:?}");
    }
}

#[test]
fn join_matches_std() {
    let words = ["a", "bc", "def"];
    for from in 0..=words.len() {
        assert_eq!(join_from(&words, from), words[from..].join(" "));
    }
}

#[test]
fn decimal_matches_std() {
    for n in [0u32, 1, 9, 10, 11, 99, 100, 101, 1000, 65535, 1234567890, u32::MAX] {
        assert_eq!(u32_to_string(n), n.to_string());
        assert_eq!(parse_u32(&n.to_string()), Some(n));
    }
    assert_eq!(with_number("<", 42, ">"), "<42>");
}

#[test]
fn parse_matches_std() {
    let inputs = [
        "", "+", "-", "0", "+0", "-0", "00042", "+12", "++1", "4294967295", "4294967296", "42949672950",
        "1 2", " 1", "1a", "a1", "٣", "１", "99999999999999999999",
    ];
    for s in inputs {
        assert_eq!(parse_u32(s), s.parse::<u32>().ok(), "{s:?}");
    }
}

#[test]
fn equality_push_and_concat() {
    assert!(str_eq("abc", "abc"));
    assert!(!str_eq("abc", "abd"));
    assert!(!str_eq("abc", "ab"));
    assert!(str_eq("", ""));
    let mut s = String::from("ab");
    push_char(&mut s, 'ç');
    assert_eq!(s, "abç");
    assert_eq!(concat_strs("foo", "bar"), "foobar");
}
