use ssh_bookmarker::order::{compare_text, same_text, Rank};
use ssh_bookmarker::text::{
    char_index, chars_of, is_whitespace, marker_index, split_on, split_words, trimmed,
};
use std::cmp::Ordering;

const SAMPLES: [&str; 18] = [
    "",
    " ",
    "a",
    "  a  ",
    "\ta b\n",
    "a  b   c",
    " leading",
    "trailing ",
    "\u{a0}non-breaking\u{a0}space\u{a0}",
    "\u{2003}em\u{2003}space\u{3000}",
    "\u{200b}zero-width\u{200b}",
    "tab\tseparated\tvalues",
    "line\r\n",
    "a,b,c",
    ",a,,b,",
    "Host foo bar #:mosh,ssh",
    "#:#:",
    "\u{e9}t\u{e9} \u{1F600} x",
];

#[test]
fn white_space_is_that_of_the_standard_library() {
    for code in 0u32..=0x10FFFF {
        if let Some(c) = char::from_u32(code) {
            assert_eq!(is_whitespace(c), c.is_whitespace(), "U+{:04X}", code);
        }
    }
}

#[test]
fn chars_are_collected_in_order() {
    for s in SAMPLES {
        let expected: Vec<char> = s.chars().collect();
        assert_eq!(chars_of(s), expected);
    }
}

#[test]
fn trimming_is_that_of_the_standard_library() {
    for s in SAMPLES {
        assert_eq!(trimmed(s), s.trim(), "{:?}", s);
    }
    assert_eq!(trimmed("  a b  "), "a b");
}

#[test]
fn words_are_those_of_the_standard_library() {
    for s in SAMPLES {
        let expected: Vec<&str> = s.split_whitespace().collect();
        assert_eq!(split_words(s), expected, "{:?}", s);
    }
    assert_eq!(split_words(" one  two\tthree "), vec!["one", "two", "three"]);
}

#[test]
fn pieces_are_those_of_the_standard_library() {
    for s in SAMPLES {
        for sep in [',', ' ', '#', 'a'] {
            let expected: Vec<&str> = s.split(sep).collect();
            assert_eq!(split_on(s, sep), expected, "{:?} at {:?}", s, sep);
        }
    }
    assert_eq!(split_on("", ','), vec![""]);
    assert_eq!(split_on("a,,b", ','), vec!["a", "", "b"]);
}

#[test]
fn first_occurrence_of_a_character() {
    assert_eq!(char_index(&chars_of("path,re,x"), ','), 4);
    assert_eq!(char_index(&chars_of(",x"), ','), 0);
    assert_eq!(char_index(&chars_of("none"), ','), 4);
    assert_eq!(char_index(&chars_of(""), ','), 0);
    assert_eq!(char_index(&chars_of("\u{e9}\u{e9},"), ','), 2);
}

#[test]
fn first_annotation_marker() {
    assert_eq!(marker_index(&chars_of("Host a #:mosh")), 7);
    assert_eq!(marker_index(&chars_of("#:")), 0);
    assert_eq!(marker_index(&chars_of("a#:b#:c")), 1);
    assert_eq!(marker_index(&chars_of("a # : b")), 7);
    assert_eq!(marker_index(&chars_of("a #")), 3);
    assert_eq!(marker_index(&chars_of("##:")), 1);
    assert_eq!(marker_index(&chars_of("")), 0);
}

#[test]
fn order_of_texts_is_that_of_the_standard_library() {
    for a in SAMPLES {
        for b in SAMPLES {
            let expected = match a.cmp(b) {
                Ordering::Less => Rank::Before,
                Ordering::Equal => Rank::Same,
                Ordering::Greater => Rank::After,
            };
            assert_eq!(compare_text(a, b), expected, "{:?} and {:?}", a, b);
            assert_eq!(same_text(a, b), a == b);
        }
    }
    assert_eq!(compare_text("a", "ab"), Rank::Before);
    assert_eq!(compare_text("b", "ab"), Rank::After);
    assert_eq!(compare_text("Z", "a"), Rank::Before);
}
