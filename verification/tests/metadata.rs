use orpheus::metadata::{sort_strings, Frontmatter, MetaData, ToCDepth};

fn fm() -> Frontmatter {
    Frontmatter {
        title: "Adding Lazy Loading".to_string(),
        brief: None,
        tagline: Some("Why Can't I Hold All These Posts?".to_string()),
        series: Some("Orpheus Architecture".to_string()),
        tags: vec!["projects".to_string(), "Programming Stuff".to_string(), "Ærø!".to_string()],
        published: "2024-05-24".to_string(),
        updated: None,
        toc_depth: ToCDepth::default(),
    }
}

#[test]
fn defaults() {
    assert_eq!(ToCDepth::default().0, 3);
    let d = Frontmatter::default();
    assert_eq!(d.title, "");
    assert!(d.tags.is_empty());
    assert_eq!(d.toc_depth.0, 3);
}

#[test]
fn metadata_from_frontmatter() {
    let m = MetaData::from_frontmatter(fm(), "adding-lazy-loading".to_string(), 1000, "First.".to_string());
    assert_eq!(m.title, "Adding Lazy Loading");
    assert_eq!(m.slug, "adding-lazy-loading");
    assert_eq!(m.brief, "First.");
    assert_eq!(m.tagline.as_deref(), Some("Why Can't I Hold All These Posts?"));
    let s = m.series.unwrap();
    assert_eq!(s.name, "Orpheus Architecture");
    assert_eq!(s.slug, "orpheus-architecture");
    assert_eq!(m.tags, vec!["aero", "programming-stuff", "projects"]);
    assert_eq!(m.word_count, 1000);
    assert_eq!(m.reading_time, 4);
    assert_eq!(m.published, "2024-05-24");
    assert_eq!(m.updated, None);
}

#[test]
fn a_written_brief_wins() {
    let mut f = fm();
    f.brief = Some("Own brief".to_string());
    f.series = None;
    let m = MetaData::from_frontmatter(f, "x".to_string(), 239, "First.".to_string());
    assert_eq!(m.brief, "Own brief");
    assert!(m.series.is_none());
    assert_eq!(m.reading_time, 0);
}

#[test]
fn strings_sort_by_code_point() {
    let v = vec!["b".to_string(), "B".to_string(), "ab".to_string(), "a".to_string(), "é".to_string(), "b".to_string()];
    assert_eq!(sort_strings(v), vec!["B", "a", "ab", "b", "b", "é"]);
    assert!(sort_strings(Vec::new()).is_empty());
}
