use orpheus::highlight::{code_block_html, lines_with_endings, BlockModel, HighlightError, Highlighter};

#[test]
fn lines_keep_their_breaks() {
    assert_eq!(lines_with_endings("a\nb"), vec!["a\n", "b"]);
    assert_eq!(lines_with_endings("a\n"), vec!["a\n"]);
    assert_eq!(lines_with_endings("\n\n"), vec!["\n", "\n"]);
    assert!(lines_with_endings("").is_empty());
}

#[test]
fn block_markup() {
    let classes = vec!["rs".to_string(), "numberLines".to_string()];
    assert_eq!(
        code_block_html(&classes, "CODE"),
        "<pre class=\"rs numberLines\"><code class=\"language-rs\">CODE\n</code></pre>"
    );
    let empty_class = vec!["".to_string()];
    assert_eq!(code_block_html(&empty_class, "x"), "<pre><code class=\"language-\">x\n</code></pre>");
}

#[test]
fn highlighting_known_and_unknown_languages() {
    let h = Highlighter::new();
    assert!(matches!(h.highlight(&Vec::new(), "x"), Ok(None)));
    match h.highlight(&vec!["rs".to_string()], "fn main() {}\n") {
        Ok(Some(html)) => {
            assert!(html.starts_with("<pre class=\"rs\"><code class=\"language-rs\">"));
            assert!(html.ends_with("\n</code></pre>"));
            assert!(html.contains("c-"));
        }
        _ => panic!("expected highlighted markup"),
    }
    match h.highlight(&vec!["no-such-language".to_string()], "x") {
        Err(HighlightError::UnknownLanguage(l)) => assert_eq!(l, "no-such-language"),
        _ => panic!("expected an unknown language"),
    }
}

#[test]
fn document_blocks() {
    let h = Highlighter::new();
    let blocks = vec![
        BlockModel::Other,
        BlockModel::Code { classes: Vec::new(), content: "plain".to_string() },
        BlockModel::Code { classes: vec!["rs".to_string()], content: "let x = 1;\n".to_string() },
    ];
    match h.highlight_blocks(&blocks) {
        Ok(raw) => {
            assert_eq!(raw.len(), 3);
            assert!(raw[0].is_none());
            assert!(raw[1].is_none());
            let html = raw[2].as_ref().unwrap();
            assert!(html.starts_with("<pre class=\"rs\"><code class=\"language-rs\">"));
            assert!(html.contains("c-"));
        }
        Err(_) => panic!("expected every block handled"),
    }
    let bad = vec![
        BlockModel::Code { classes: vec!["rs".to_string()], content: "x\n".to_string() },
        BlockModel::Code { classes: vec!["nope-lang".to_string()], content: "x".to_string() },
        BlockModel::Code { classes: vec!["other-nope".to_string()], content: "x".to_string() },
    ];
    match h.highlight_blocks(&bad) {
        Err(HighlightError::UnknownLanguage(l)) => assert_eq!(l, "nope-lang"),
        _ => panic!("expected the first unknown language"),
    }
}

#[test]
fn language_found_by_name() {
    let h = Highlighter::new();
    assert!(matches!(h.highlight(&vec!["Rust".to_string()], "fn f() {}\n"), Ok(Some(_))));
}
