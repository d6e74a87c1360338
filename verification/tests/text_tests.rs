use jonescli::text::{
    char_is_whitespace, chars_of, contains_chars, count_in, find_in, join_strings, matches_at,
    same_text, split_lines, str_contains, str_starts_with, trim_bounds, trimmed, without,
};

const SAMPLES: [&str; 14] = [
    "",
    " ",
    "   ",
    "a",
    "  a  ",
    "\t\"\"\"Doc\"\"\"\r",
    "\u{2003}x y\u{00a0}",
    "\u{200b}zero width\u{200b}",
    "class A(B, C):",
    "aaaa",
    "\"\"\"\"\"\"\"",
    "a\nb\n\nc\n",
    "\n",
    "héllo wörld ",
];

const PATTERNS: [&str; 9] = ["", "a", "aa", "\"\"\"", "class ", " ", "\n", "ö", "zzzzzzzzzzzzzzzz"];

#[test]
fn whitespace_is_what_std_calls_whitespace() {
    for code in 0..=0x10FFFFu32 {
        if let Some(c) = char::from_u32(code) {
            assert_eq!(char_is_whitespace(c), c.is_whitespace(), "U+{:04X}", code);
        }
    }
}

#[test]
fn trimmed_is_std_trim() {
    for s in SAMPLES {
        assert_eq!(trimmed(s), s.trim());
    }
}

#[test]
fn trim_bounds_of_blank_text_meet() {
    assert_eq!(trim_bounds(&chars_of("")), (0, 0));
    assert_eq!(trim_bounds(&chars_of("   ")), (3, 3));
    assert_eq!(trim_bounds(&chars_of("  ab ")), (2, 4));
    assert_eq!(trim_bounds(&chars_of("é ")), (0, 1));
}

#[test]
fn contains_and_starts_with_are_std() {
    for s in SAMPLES {
        for p in PATTERNS {
            assert_eq!(str_contains(s, p), s.contains(p), "{:?} in {:?}", p, s);
            assert_eq!(str_starts_with(s, p), s.starts_with(p), "{:?} at {:?}", p, s);
            assert_eq!(contains_chars(&chars_of(s), &chars_of(p)), s.contains(p));
        }
    }
}

#[test]
fn count_is_std_matches_count() {
    for s in SAMPLES {
        for p in PATTERNS {
            if !p.is_empty() {
                assert_eq!(count_in(&chars_of(s), &chars_of(p)), s.matches(p).count());
            }
        }
    }
    assert_eq!(count_in(&chars_of("aaaa"), &chars_of("aa")), 2);
    assert_eq!(count_in(&chars_of("aaa"), &chars_of("aa")), 1);
    assert_eq!(count_in(&chars_of("abc"), &chars_of("")), 0);
}

#[test]
fn without_is_std_replace_by_nothing() {
    for s in SAMPLES {
        for p in PATTERNS {
            assert_eq!(without(s, p), s.replace(p, ""), "{:?} without {:?}", s, p);
        }
    }
    assert_eq!(without("aaa", "aa"), "a");
    assert_eq!(without("\"\"\"\"\"\"\"", "\"\"\""), "\"");
}

#[test]
fn find_in_gives_the_leftmost_position_in_characters() {
    let s = chars_of("héllo héllo");
    assert_eq!(find_in(&s, &chars_of("llo"), 0), Some(2));
    assert_eq!(find_in(&s, &chars_of("llo"), 3), Some(8));
    assert_eq!(find_in(&s, &chars_of("llo"), 9), None);
    assert_eq!(find_in(&s, &chars_of(""), 11), Some(11));
    assert_eq!(find_in(&s, &chars_of(""), 12), None);
    assert_eq!(find_in(&s, &chars_of("héllo héllo!"), 0), None);
    assert!(matches_at(&s, &chars_of("h"), 6));
    assert!(!matches_at(&s, &chars_of("h"), 7));
    assert!(!matches_at(&s, &chars_of("o"), usize::MAX));
}

#[test]
fn same_text_compares_characters() {
    assert!(same_text("def", "def"));
    assert!(same_text("", ""));
    assert!(!same_text("def", "de"));
    assert!(!same_text("def", "dEf"));
    assert!(!same_text("de", "def"));
}

#[test]
fn split_lines_is_std_split_on_newline() {
    for s in SAMPLES {
        let expected: Vec<&str> = s.split("\n").collect();
        assert_eq!(split_lines(s), expected);
    }
    assert_eq!(split_lines(""), vec![""]);
    assert_eq!(split_lines("a\n"), vec!["a", ""]);
}

#[test]
fn join_strings_is_std_join() {
    let cases: Vec<Vec<String>> = vec![
        vec![],
        vec!["".to_string()],
        vec!["a".to_string()],
        vec!["a".to_string(), "".to_string(), "b".to_string()],
        vec!["".to_string(), "".to_string()],
    ];
    for parts in cases {
        assert_eq!(join_strings(&parts, "\n"), parts.join("\n"));
        assert_eq!(join_strings(&parts, ""), parts.join(""));
        assert_eq!(join_strings(&parts, ", "), parts.join(", "));
    }
}
