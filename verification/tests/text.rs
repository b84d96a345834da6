use epub_reader::order::{chars_le, stable_sort_order};
use epub_reader::text::{
    chars_of, contains_chars, ends_with_chars, is_whitespace, split_chars, starts_with_chars,
    trim_char, trim_whitespace,
};

#[test]
fn whitespace_matches_std() {
    for u in 0u32..=0x10FFFF {
        if let Some(c) = char::from_u32(u) {
            assert_eq!(is_whitespace(c), c.is_whitespace(), "U+{u:04X}");
        }
    }
}

#[test]
fn trims_match_std() {
    for s in ["", "  ", " a ", "\u{3000}x\t\n", "//a/b//", "/", "a", " /x/ "] {
        assert_eq!(trim_whitespace(s), s.trim());
        assert_eq!(trim_char(s, '/'), s.trim_matches('/'));
    }
}

#[test]
fn split_matches_std() {
    for s in ["", ";", "a;b", ";a;;b;", "no separator"] {
        let got: Vec<String> =
            split_chars(&chars_of(s), ';').into_iter().map(|v| v.into_iter().collect()).collect();
        let want: Vec<String> = s.split(';').map(String::from).collect();
        assert_eq!(got, want);
    }
}

#[test]
fn string_predicates() {
    let v = chars_of("a..b");
    assert!(contains_chars(&v, &chars_of("..")));
    assert!(!contains_chars(&chars_of("a.b"), &chars_of("..")));
    assert!(contains_chars(&v, &chars_of("")));
    assert!(starts_with_chars(&v, &chars_of("a.")));
    assert!(ends_with_chars(&v, &chars_of(".b")));
    assert!(!ends_with_chars(&v, &chars_of("xa..b")));
}

#[test]
fn order_matches_string_order() {
    let words = ["", "a", "b", "ab", "aa", "Z", "é", "e", "ä", "a b", "ab\u{0}"];
    for x in words {
        for y in words {
            assert_eq!(chars_le(&chars_of(x), &chars_of(y)), x <= y, "{x:?} <= {y:?}");
        }
    }
}

#[test]
fn sort_order_is_stable() {
    let keys: Vec<Vec<char>> = ["b", "a", "b", "c", "a"].iter().map(|s| chars_of(s)).collect();
    assert_eq!(stable_sort_order(&keys), vec![1, 4, 0, 2, 3]);
}
