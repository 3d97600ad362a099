use vesper::media_memory::{media_key, MediaMemory};

#[test]
fn keys_name_the_thumbnail_size() {
    assert_eq!(media_key("mxc://x/a", None), "mxc://x/a");
    assert_eq!(media_key("mxc://x/a", Some((96, 48))), "mxc://x/a|96x48");
}

#[test]
fn one_fetch_per_key_and_placeholders_are_not_uris() {
    let mut m = MediaMemory::new();
    assert!(m.begin("k".to_string()));
    assert!(!m.begin("k".to_string()));
    assert_eq!(m.uri("k"), None);
    m.resolved("k".to_string(), "data:x".to_string());
    assert_eq!(m.uri("k").as_deref(), Some("data:x"));
    assert!(!m.begin("k".to_string()));
    m.failed("k");
    assert_eq!(m.uri("k"), None);
    assert!(m.begin("k".to_string()));
}

#[test]
fn past_the_cap_the_oldest_recorded_entry_goes() {
    let mut m = MediaMemory::new();
    m.resolved("a".to_string(), "aaaaaa".to_string());
    m.resolved("b".to_string(), "bbbbbb".to_string());
    // Every insert is recorded, oldest first, also within the cap.
    assert_eq!(m.order, vec!["a".to_string(), "b".to_string()]);
    // Past the cap the oldest goes, never the entry that triggered it.
    m.enforce_cap("b", 10);
    assert_eq!(m.uri("a"), None);
    assert_eq!(m.uri("b").as_deref(), Some("bbbbbb"));
    assert_eq!(m.order, vec!["b".to_string()]);
    m.resolved("c".to_string(), "cccccc".to_string());
    assert_eq!(m.order, vec!["b".to_string(), "c".to_string()]);
    m.enforce_cap("c", 10);
    assert_eq!(m.uri("b"), None);
    assert_eq!(m.uri("c").as_deref(), Some("cccccc"));
    assert_eq!(m.order, vec!["c".to_string()]);
}

#[test]
fn sweeps_stop_at_a_pending_placeholder() {
    let mut m = MediaMemory::new();
    assert!(m.begin("p".to_string()));
    m.order.push("p".to_string());
    m.resolved("a".to_string(), "aaaaaaaaaaaa".to_string());
    m.enforce_cap("a", 4);
    assert_eq!(m.uri("a").as_deref(), Some("aaaaaaaaaaaa"));
    assert_eq!(m.order, vec!["p".to_string(), "a".to_string()]);
}
