use orpheus::page::{
    error_page_for, post_description, post_link, revisions_tooltip, series_link, shows_toc,
    tag_checkbox_id, tag_link, updated_tooltip, ErrorMessage, PageKind, PageLayout,
};

#[test]
fn kind_from_htmx_headers() {
    assert_eq!(PageKind::from_headers(Some(b"true"), Some(b"true")), PageKind::Boosted);
    assert_eq!(PageKind::from_headers(None, Some(b"true")), PageKind::Direct);
    assert_eq!(PageKind::from_headers(Some(b"false"), Some(b"true")), PageKind::Direct);
    assert_eq!(PageKind::from_headers(Some(b"True"), None), PageKind::Full);
    assert_eq!(PageKind::from_headers(None, None), PageKind::Full);
}

#[test]
fn layouts() {
    assert_eq!(PageKind::Direct.layout(true, true), PageLayout::DirectMarkup);
    assert_eq!(PageKind::Direct.layout(true, false), PageLayout::ContentOnly);
    assert_eq!(PageKind::Boosted.layout(true, true), PageLayout::BoostedWithHead);
    assert_eq!(PageKind::Boosted.layout(false, true), PageLayout::BoostedWithTitle);
    assert_eq!(PageKind::Full.layout(false, false), PageLayout::Document);
}

#[test]
fn error_pages() {
    assert_eq!(error_page_for(404), Some(ErrorMessage::NotFound));
    assert_eq!(error_page_for(400), Some(ErrorMessage::BadRequest));
    assert_eq!(error_page_for(418), Some(ErrorMessage::ClientError));
    assert_eq!(error_page_for(503), Some(ErrorMessage::UnderConstruction));
    assert_eq!(error_page_for(502), Some(ErrorMessage::InternalServerError));
    assert_eq!(ErrorMessage::UnderConstruction.text(), "Under construction");
    assert_eq!(error_page_for(200), None);
    assert_eq!(error_page_for(304), None);
    assert_eq!(ErrorMessage::NotFound.text(), "Not Found");
    assert_eq!(ErrorMessage::BadRequest.text(), "Bad Request");
    assert_eq!(ErrorMessage::ClientError.text(), "Client Error");
    assert_eq!(ErrorMessage::InternalServerError.text(), "Internal Server Error");
    assert_eq!(PageKind::Boosted.error_status(404), None);
    assert_eq!(PageKind::Full.error_status(404), Some(404));
    assert_eq!(PageKind::Direct.error_status(500), Some(500));
}

#[test]
fn post_page_texts() {
    assert_eq!(post_description(&Some("Tag".to_string()), "Brief"), "Tag\n---\nBrief");
    assert_eq!(post_description(&None, "Brief"), "Brief");
    assert!(!shows_toc(&"x".repeat(40)));
    assert!(shows_toc(&"x".repeat(41)));
    assert_eq!(revisions_tooltip(""), None);
    assert_eq!(revisions_tooltip("r1"), Some("r1".to_string()));
    assert_eq!(updated_tooltip(&Some("2024-06-01".to_string())), Some("updated 2024-06-01".to_string()));
    assert_eq!(updated_tooltip(&None), None);
    assert_eq!(tag_link("rust"), "/posts?tag=rust");
    assert_eq!(series_link("orpheus"), "/posts?series=orpheus");
    assert_eq!(post_link("a"), "/posts/a");
    assert_eq!(tag_checkbox_id("rust"), "checkbox-rust");
}
