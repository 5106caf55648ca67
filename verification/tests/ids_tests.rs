use codex_core::ids::normalize_id;

#[test]
fn id_normalization_basic() {
    assert_eq!(normalize_id("Hello World"), "hello-world");
    assert_eq!(normalize_id("A__b  C"), "a-b-c");
    assert_eq!(normalize_id("___"), "unnamed");
    assert_eq!(normalize_id("foo@bar!baz"), "foobarbaz");
}

#[test]
fn id_normalization_idempotent() {
    // Normalizing a normalized id returns it unchanged.
    for s in ["Hello World", "___", "foo@bar!baz", "A__b  C", "-x-", ""] {
        let once = normalize_id(s);
        assert_eq!(normalize_id(&once), once);
    }
}

#[test]
fn id_normalization_charset_and_edges() {
    for s in ["  Spaces  ", "--dash--", "MiXeD_case-42", "@@@"] {
        let id = normalize_id(s);
        assert!(!id.is_empty());
        assert!(id
            .chars()
            .all(|c| c.is_ascii_lowercase() || c.is_ascii_digit() || c == '-'));
        assert!(!id.starts_with('-'));
        assert!(!id.ends_with('-'));
        assert!(!id.contains("--"));
    }
    assert_eq!(normalize_id(""), "unnamed");
}
