use orpheus::frontmatter::{frontmatter_outcome, frontmatter_sections, FrontmatterError};
use orpheus::metadata::Frontmatter;

#[test]
fn locates_the_block_between_markers() {
    let s = frontmatter_sections("---\ntitle: A\n---\nBody").unwrap();
    assert_eq!(s.yaml, "\ntitle: A\n");
    assert!(s.has_content);
}

#[test]
fn text_before_the_first_marker_is_ignored() {
    let s = frontmatter_sections("intro ---x---y").unwrap();
    assert_eq!(s.yaml, "x");
    assert!(s.has_content);
}

#[test]
fn a_single_marker_leaves_no_content() {
    let s = frontmatter_sections("---\ntitle: A\n").unwrap();
    assert_eq!(s.yaml, "\ntitle: A\n");
    assert!(!s.has_content);
}

#[test]
fn no_marker_no_frontmatter() {
    assert!(frontmatter_sections("just text").is_none());
    assert!(frontmatter_sections("--").is_none());
}

#[test]
fn markers_do_not_overlap() {
    let s = frontmatter_sections("-----").unwrap();
    assert_eq!(s.yaml, "--");
    assert!(!s.has_content);
}

#[test]
fn parser_errors_come_before_missing_content() {
    let s = frontmatter_sections("---\nbad").unwrap();
    match frontmatter_outcome(s, Err("bad yaml".to_string())) {
        Err(FrontmatterError::Invalid(m)) => assert_eq!(m, "bad yaml"),
        _ => panic!("expected the parser's error"),
    }
    let s = frontmatter_sections("---\ntitle: A\n").unwrap();
    assert!(matches!(frontmatter_outcome(s, Ok(Frontmatter::default())), Err(FrontmatterError::MissingContent)));
    let s = frontmatter_sections("---\ntitle: A\n---\nbody").unwrap();
    let mut fm = Frontmatter::default();
    fm.title = "A".to_string();
    match frontmatter_outcome(s, Ok(fm)) {
        Ok(fm) => assert_eq!(fm.title, "A"),
        _ => panic!("expected the frontmatter"),
    }
}
