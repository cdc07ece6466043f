use orpheus::hashing::{content_hash, hash_is_current, hashed_path, HASH_PATHS};

#[test]
fn hash_of_empty_contents() {
    assert_eq!(content_hash(b""), "47DEQpj8HBSa-_TImW-5JCeuQeRkm5NMpJWZG3hSuFU");
}

#[test]
fn hash_of_some_contents() {
    // SHA-256 of "abc" is ba7816bf8f01cfea414140de5dae2223b00361a396177a9cb410ff61f20015ad.
    assert_eq!(content_hash(b"abc"), "ungWv48Bz-pBQUDeXa4iI7ADYaOWF3qctBD_YfIAFa0");
    let h = content_hash(b"body { color: red }");
    assert_eq!(h.len(), 43);
    assert!(h.chars().all(|c| c.is_ascii_alphanumeric() || c == '-' || c == '_'));
}

#[test]
fn hashes_are_recorded_beside_their_names() {
    assert_eq!(hashed_path("web/styles.scss"), "generated/hashes/styles.scss.hash");
    assert_eq!(hashed_path("generated/static/main.js"), "generated/hashes/main.js.hash");
    assert_eq!(hashed_path("LICENSE"), "generated/hashes/LICENSE.hash");
    assert_eq!(hashed_path(".env"), "generated/hashes/.env.hash");
}

#[test]
fn every_tracked_path_has_a_hash_path() {
    for p in HASH_PATHS {
        assert!(hashed_path(p).starts_with("generated/hashes/"));
        assert!(hashed_path(p).ends_with(".hash"));
    }
    assert_eq!(HASH_PATHS.len(), 5);
}

#[test]
fn current_hashes() {
    assert!(hash_is_current(Some("abc"), "abc"));
    assert!(!hash_is_current(Some("abc"), "abd"));
    assert!(!hash_is_current(None, "abc"));
}
