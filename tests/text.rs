use ipfs_indexer::text::{is_space_char, join_with_spaces, leading_chars, split_words};

#[test]
fn words_split_on_unicode_whitespace() {
    let cs: Vec<char> = "  a\u{00a0}bc\n\td  ".chars().collect();
    assert_eq!(split_words(&cs), vec!["a".to_string(), "bc".to_string(), "d".to_string()]);
    assert!(split_words(&Vec::new()).is_empty());
}

#[test]
fn whitespace_matches_std() {
    for c in ['\t', '\n', ' ', '\u{85}', '\u{a0}', '\u{2003}', '\u{3000}', 'a', '_', '\u{200b}'] {
        assert_eq!(is_space_char(c), c.is_whitespace());
    }
}

#[test]
fn parts_are_joined_with_spaces() {
    let parts = vec!["  one ".to_string(), "two\n\nthree".to_string(), "".to_string()];
    assert_eq!(join_with_spaces(&parts), "  one  two\n\nthree ");
    let cs: Vec<char> = join_with_spaces(&parts).chars().collect();
    assert_eq!(join_with_spaces(&split_words(&cs)), "one two three");
}

#[test]
fn leading_chars_counts_characters() {
    assert_eq!(leading_chars("héllo", 2), "hé");
    assert_eq!(leading_chars("abc", 128), "abc");
}
