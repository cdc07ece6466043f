use orpheus::catalogue::{page_of, PostData, PostsFilters, CHUNK_SIZE};
use orpheus::metadata::{PostMetaData, Series};

fn post(slug: &str, title: &str, published: &str, tags: &[&str], series: Option<(&str, &str)>) -> PostMetaData {
    PostMetaData {
        title: title.to_string(),
        slug: slug.to_string(),
        brief: format!("brief of {slug}"),
        tagline: None,
        series: series.map(|(n, s)| Series { name: n.to_string(), slug: s.to_string() }),
        tags: tags.iter().map(|t| t.to_string()).collect(),
        word_count: 480,
        reading_time: 2,
        published: published.to_string(),
        updated: String::new(),
        revisions: String::new(),
        toc_depth: 3,
    }
}

fn catalogue() -> PostData {
    PostData::new(vec![
        post("a", "Adding Lazy Loading", "2024-05-24", &["projects", "programming"], Some(("Orpheus Architecture", "orpheus-architecture"))),
        post("b", "Brainstorming a Ranking Method", "2024-04-14", &["software", "brainstorming"], None),
        post("c", "Post Template Generator", "2024-06-01", &["projects", "programming"], Some(("Orpheus Architecture", "orpheus-architecture"))),
        post("d", "The Making of this Site", "2024-03-01", &["programming", "projects"], Some(("Orpheus Architecture", "orpheus-architecture"))),
        post("e", "Elsewhere", "2023-01-01", &["misc"], Some(("Another", "another"))),
    ])
}

fn filters(tags: &[&str], series: Option<&str>, search: Option<&str>) -> PostsFilters {
    PostsFilters {
        tag: tags.iter().map(|t| t.to_string()).collect(),
        series: series.map(|s| s.to_string()),
        search: search.map(|s| s.to_string()),
        skip: None,
    }
}

fn slugs(data: &PostData, positions: &[usize]) -> Vec<String> {
    positions.iter().map(|&i| data.posts()[i].slug.clone()).collect()
}

#[test]
fn catalogue_collects_tags_and_series() {
    let data = catalogue();
    assert_eq!(data.posts().len(), 5);
    assert_eq!(data.tags(), &vec!["brainstorming", "misc", "programming", "projects", "software"]);
    let series: Vec<(String, String)> = data.series().iter().map(|s| (s.name.clone(), s.slug.clone())).collect();
    assert_eq!(
        series,
        vec![
            ("Another".to_string(), "another".to_string()),
            ("Orpheus Architecture".to_string(), "orpheus-architecture".to_string())
        ]
    );
}

#[test]
fn the_last_post_with_a_slug_wins() {
    let data = PostData::new(vec![
        post("a", "First", "2024-01-01", &["old"], None),
        post("a", "Second", "2024-02-01", &["new"], None),
    ]);
    assert_eq!(data.posts().len(), 1);
    assert_eq!(data.get("a").unwrap().title, "Second");
    assert_eq!(data.tags(), &vec!["new"]);
    assert!(data.get("z").is_none());
    assert_eq!(data.position("a"), Some(0));
}

#[test]
fn browsing_filters_and_orders_newest_first() {
    let data = catalogue();
    let all = data.select(&filters(&[], None, None));
    assert_eq!(slugs(&data, &all), vec!["c", "a", "b", "d", "e"]);
    let series = data.select(&filters(&[], Some("orpheus-architecture"), None));
    assert_eq!(slugs(&data, &series), vec!["c", "a", "d"]);
    let tagged = data.select(&filters(&["projects", "programming"], None, None));
    assert_eq!(slugs(&data, &tagged), vec!["c", "a", "d"]);
    let searched = data.select(&filters(&[], None, Some("MAKING")));
    assert_eq!(slugs(&data, &searched), vec!["d"]);
    let none = data.select(&filters(&["software"], Some("orpheus-architecture"), None));
    assert!(none.is_empty());
}

#[test]
fn search_results_keep_the_index_order() {
    let data = catalogue();
    let found = data.select_found(
        &filters(&["projects"], None, Some("x")),
        Some(vec!["d".to_string(), "b".to_string(), "a".to_string()]),
    );
    assert_eq!(slugs(&data, &found), vec!["d", "a"]);
    let unsearched = data.select_found(&filters(&[], Some("another"), None), None);
    assert_eq!(slugs(&data, &unsearched), vec!["e"]);
}

#[test]
fn first_version_orders_by_title() {
    let data = catalogue();
    let all = data.select_by_title(&filters(&[], None, None));
    assert_eq!(slugs(&data, &all), vec!["a", "b", "e", "c", "d"]);
}

#[test]
fn recent_posts_for_the_home_page() {
    let data = catalogue();
    assert_eq!(slugs(&data, &data.recent(3)), vec!["c", "a", "b"]);
    let all = data.recent(10);
    assert_eq!(all.len(), 5);
    let mut sorted = all.clone();
    sorted.sort();
    sorted.dedup();
    assert_eq!(sorted.len(), 5);
    assert!(data.recent(0).is_empty());
}

#[test]
fn pages_of_five() {
    assert_eq!(CHUNK_SIZE, 5);
    let ordered: Vec<usize> = (0..12).collect();
    let p0 = page_of(&ordered, 0);
    assert_eq!(p0.posts, vec![0, 1, 2, 3, 4]);
    assert!(p0.more_after);
    assert_eq!(p0.next_skip, 5);
    let p1 = page_of(&ordered, p0.next_skip);
    assert_eq!(p1.posts, vec![5, 6, 7, 8, 9]);
    assert!(p1.more_after);
    let p2 = page_of(&ordered, p1.next_skip);
    assert_eq!(p2.posts, vec![10, 11]);
    assert!(!p2.more_after);
    assert_eq!(p2.next_skip, 15);
}

#[test]
fn exactly_one_full_page_asks_for_no_more() {
    let ordered: Vec<usize> = (0..5).collect();
    let p = page_of(&ordered, 0);
    assert_eq!(p.posts.len(), 5);
    assert!(!p.more_after);
    let empty = page_of(&ordered, 5);
    assert!(empty.posts.is_empty());
    assert!(!empty.more_after);
}
