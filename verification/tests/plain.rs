use orpheus::plain::{first_paragraph, is_whitespace, lines, process_plain, word_count, PlainTextError};

#[test]
fn counts_words_between_any_white_space() {
    assert_eq!(word_count(""), 0);
    assert_eq!(word_count("   "), 0);
    assert_eq!(word_count("one"), 1);
    assert_eq!(word_count("  one two\tthree\nfour  "), 4);
    assert_eq!(word_count("a\u{00A0}b\u{3000}c"), 3);
}

#[test]
fn white_space_follows_unicode() {
    assert!(is_whitespace(' '));
    assert!(is_whitespace('\u{2028}'));
    assert!(!is_whitespace('x'));
    assert!(!is_whitespace('\u{200B}'));
}

#[test]
fn lines_like_str_lines() {
    let text: Vec<char> = "a\r\nb\n\nc\r".chars().collect();
    let got: Vec<String> = lines(&text).into_iter().map(|l| l.into_iter().collect()).collect();
    assert_eq!(got, vec!["a", "b", "", "c\r"]);
    let text: Vec<char> = "x\n".chars().collect();
    assert_eq!(lines(&text).len(), 1);
}

#[test]
fn first_paragraph_skips_headings_and_blank_lines() {
    assert_eq!(first_paragraph("# Title\n\nHello world\nmore"), Some("Hello world".to_string()));
    assert_eq!(first_paragraph("#\n\n"), None);
    assert_eq!(first_paragraph(" # not a heading"), Some(" # not a heading".to_string()));
}

#[test]
fn plain_text_gives_count_and_opening() {
    match process_plain("# Title\n\nHello world\nmore") {
        Ok((n, p)) => {
            assert_eq!(n, 5);
            assert_eq!(p, "Hello world");
        }
        Err(_) => panic!("expected a paragraph"),
    }
    assert!(matches!(process_plain("# Only a heading\n"), Err(PlainTextError::EmptyContent)));
}
