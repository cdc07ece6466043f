use orpheus::etags::{CacheAction, ETags};

#[test]
fn get_after_insert() {
    let mut t = ETags::new();
    assert_eq!(t.len(), 0);
    t.insert("/main".to_string(), "aaa".to_string());
    t.insert("/styles".to_string(), "bbb".to_string());
    assert_eq!(t.get("/main").map(|s| s.as_str()), Some("aaa"));
    t.insert("/main".to_string(), "ccc".to_string());
    assert_eq!(t.get("/main").map(|s| s.as_str()), Some("ccc"));
    assert_eq!(t.get("/styles").map(|s| s.as_str()), Some("bbb"));
    assert_eq!(t.get("/nothing"), None);
    assert_eq!(t.len(), 2);
}

#[test]
fn recording_outputs_uses_public_keys() {
    let mut t = ETags::new();
    t.record_output("./generated/posts/foo.html", "h1".to_string());
    t.record_output("./generated/posts/foo.txt", "h2".to_string());
    t.record_output("generated/static/main.js", "h3".to_string());
    assert_eq!(t.get("/posts/foo").map(|s| s.as_str()), Some("h2"));
    assert_eq!(t.get("/main").map(|s| s.as_str()), Some("h3"));
    assert_eq!(t.len(), 2);
}

#[test]
fn text_of_a_table() {
    let mut t = ETags::new();
    assert_eq!(t.to_text(), "");
    t.insert("/a".to_string(), "1".to_string());
    t.insert("/b".to_string(), "2".to_string());
    assert_eq!(t.to_text(), "/a:1\n/b:2");
}

#[test]
fn text_round_trip() {
    let mut t = ETags::new();
    t.insert("/a".to_string(), "x-_y".to_string());
    t.insert("/posts/b".to_string(), "zz".to_string());
    let back = ETags::parse(&t.to_text()).unwrap();
    assert_eq!(back.len(), 2);
    assert_eq!(back.get("/a").map(|s| s.as_str()), Some("x-_y"));
    assert_eq!(back.get("/posts/b").map(|s| s.as_str()), Some("zz"));
}

#[test]
fn parsing_tag_files() {
    let t = ETags::parse("/a:1\r\n/b:2:extra\n/a:3\n").unwrap();
    assert_eq!(t.get("/a").map(|s| s.as_str()), Some("3"));
    assert_eq!(t.get("/b").map(|s| s.as_str()), Some("2"));
    assert_eq!(t.len(), 2);
    assert!(ETags::parse("/a:1\nno separator\n").is_none());
    assert!(ETags::parse("/a:1\n\n").is_none());
    assert_eq!(ETags::parse("").unwrap().len(), 0);
}

#[test]
fn caching_decisions() {
    let mut t = ETags::new();
    t.insert("/styles".to_string(), "abc".to_string());
    assert!(matches!(t.cache_action("/styles.css", Some("abc")), CacheAction::NotModified));
    match t.cache_action("/styles.css", Some("old")) {
        CacheAction::Serve(Some(tag)) => assert_eq!(tag, "abc"),
        _ => panic!("expected to serve with the tag"),
    }
    match t.cache_action("/styles.css", None) {
        CacheAction::Serve(Some(tag)) => assert_eq!(tag, "abc"),
        _ => panic!("expected to serve with the tag"),
    }
    assert!(matches!(t.cache_action("/other.js", Some("abc")), CacheAction::Serve(None)));
}
