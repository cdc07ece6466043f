use orpheus::locations::{
    etag_key, image_output, input_hash_path, name_ends_with, page_output, post_output,
    post_outputs, post_page_path, post_slug, post_toc_path, toc_output,
};
use orpheus::paths::{components, extension, file_name, has_extension, join, with_extension};

#[test]
fn file_name_of_plain_and_odd_paths() {
    assert_eq!(file_name("content/posts/a.md"), Some("a.md".to_string()));
    assert_eq!(file_name("a/b/"), Some("b".to_string()));
    assert_eq!(file_name("a/b/."), Some("b".to_string()));
    assert_eq!(file_name("a/.."), None);
    assert_eq!(file_name("/"), None);
    assert_eq!(file_name("."), None);
    assert_eq!(file_name(""), None);
}

#[test]
fn extension_follows_the_last_dot() {
    assert_eq!(extension("web/styles.scss"), Some("scss".to_string()));
    assert_eq!(extension("archive.tar.gz"), Some("gz".to_string()));
    assert_eq!(extension(".bashrc"), None);
    assert_eq!(extension("name."), Some("".to_string()));
    assert_eq!(extension("noext"), None);
    assert!(has_extension("content/posts/a.md", "md"));
    assert!(!has_extension("content/posts/a.yml", "md"));
}

#[test]
fn with_extension_replaces_or_removes() {
    assert_eq!(with_extension("a/b.txt", "html"), "a/b.html");
    assert_eq!(with_extension("a/b.txt", ""), "a/b");
    assert_eq!(with_extension("a/b", "html"), "a/b.html");
    assert_eq!(with_extension("a/b.txt/", "md"), "a/b.md");
    assert_eq!(with_extension("/posts?tag=x", ""), "/posts?tag=x");
    assert_eq!(with_extension("/styles.css?v=abc", ""), "/styles");
    assert_eq!(with_extension("a/..", "x"), "a/..");
}

#[test]
fn join_adds_one_separator() {
    assert_eq!(join("generated", "posts"), "generated/posts");
    assert_eq!(join("generated/", "posts"), "generated/posts");
    assert_eq!(join("generated", "/abs"), "/abs");
    assert_eq!(join("", "x"), "x");
}

#[test]
fn components_keep_root_and_leading_dot() {
    assert_eq!(components("./generated/pages/home"), vec![".", "generated", "pages", "home"]);
    assert_eq!(components("/a//b/./c"), vec!["/", "a", "b", "c"]);
    assert_eq!(components("a/../b"), vec!["a", "..", "b"]);
}

#[test]
fn etag_keys_drop_build_directories() {
    assert_eq!(etag_key("generated/static/main.js"), "/main");
    assert_eq!(etag_key("./generated/pages/home.html"), "/home");
    assert_eq!(etag_key("./generated/posts/foo.txt"), "/posts/foo");
    assert_eq!(etag_key("generated/static/styles.css"), "/styles");
}

#[test]
fn input_hashes_live_under_the_step() {
    assert_eq!(
        input_hash_path("Posts", "content/posts/a.md"),
        "./generated/repertoire/Posts/a.hash"
    );
    assert_eq!(
        input_hash_path("SCSS", "web/styles.scss"),
        "./generated/repertoire/SCSS/styles.hash"
    );
}

#[test]
fn outputs_of_sources() {
    assert_eq!(page_output("content/pages/home.md"), "./generated/pages/home.html");
    assert_eq!(image_output("./content/img/cat.png"), "./generated/img/cat.png");
    assert_eq!(post_output("content/posts/x/y.md", "txt"), "./generated/posts/y.txt");
    assert_eq!(
        post_outputs("content/posts/y.md"),
        vec!["./generated/posts/y.html", "./generated/posts/y.txt", "./generated/posts/y.yml"]
    );
    assert_eq!(toc_output("content/posts/y.md"), "./generated/posts/y-toc.html");
    assert_eq!(post_page_path("y"), "./generated/posts/y.html");
    assert_eq!(post_toc_path("y"), "./generated/posts/y-toc.html");
}

#[test]
fn slugs_of_markdown_sources() {
    assert_eq!(post_slug("content/posts/adding-lazy-loading.md"), Some("adding-lazy-loading".to_string()));
    assert_eq!(post_slug("content/posts/notes.txt"), None);
    assert_eq!(post_slug("content/posts/a.b.md"), Some("a.b".to_string()));
}

#[test]
fn names_ending_with_a_suffix() {
    assert!(name_ends_with("web/main.js", ".js"));
    assert!(!name_ends_with("web/main.jsx", ".js"));
    assert!(name_ends_with("web/x", ""));
}
