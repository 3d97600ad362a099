use vesper::calendar::civil_from_days;
use vesper::timeline::{
    created_at_of, format_hhmm, format_ymd, latest_remote_event_id, prune_handles, unique_handle, ReceiptDecision,
    ReceiptThrottle, RefCounts,
};

#[test]
fn format_hhmm_wraps_within_day() {
    assert_eq!(format_hhmm(0), "00:00");
    assert_eq!(format_hhmm(59_000), "00:00");
    assert_eq!(format_hhmm(60_000), "00:01");
    assert_eq!(format_hhmm(3_599_000), "00:59");
    assert_eq!(format_hhmm(3_600_000), "01:00");
    // 2026-08-10 12:34:56 UTC
    assert_eq!(format_hhmm(1_786_365_296_000), "12:34");
}

#[test]
fn format_ymd_known_dates() {
    assert_eq!(format_ymd(0), "1970-01-01");
    assert_eq!(format_ymd(1_786_365_296_000), "2026-08-10");
    assert_eq!(format_ymd(951_782_400_000), "2000-02-29");
    assert_eq!(format_ymd(946_598_400_000), "1999-12-31");
}

#[test]
fn civil_boundaries() {
    assert_eq!(civil_from_days(0), (1970, 1, 1));
    assert_eq!(civil_from_days(-1), (1969, 12, 31));
}

#[test]
fn registry_refcount_lifecycle() {
    let mut registry = RefCounts::new();
    registry.release("!never:opened");
    assert_eq!(registry.len(), 0);
    registry.clear();
    assert_eq!(registry.len(), 0);
}

#[test]
fn opened_timelines_are_refcounted() {
    let mut registry = RefCounts::new();
    assert!(!registry.retain("!r:x"));
    registry.insert_opened("!r:x");
    assert!(registry.contains("!r:x"));
    assert!(registry.retain("!r:x"));
    assert!(!registry.release("!r:x"));
    assert!(registry.contains("!r:x"));
    assert!(registry.release("!r:x"));
    assert!(!registry.contains("!r:x"));
    registry.insert_opened("!a:x");
    registry.insert_opened("!b:x");
    let mut ids = registry.clear();
    ids.sort();
    assert_eq!(ids, vec!["!a:x".to_string(), "!b:x".to_string()]);
    assert_eq!(registry.len(), 0);
}

#[test]
fn receipts_are_throttled_and_only_advance() {
    let mut t = ReceiptThrottle::new();
    assert_eq!(t.mark_read(None, 0), ReceiptDecision::Skip);
    assert_eq!(t.mark_read(Some("$a".to_string()), 10_000), ReceiptDecision::Send("$a".to_string()));
    assert_eq!(t.mark_read(Some("$a".to_string()), 20_000), ReceiptDecision::Skip);
    assert_eq!(t.mark_read(Some("$b".to_string()), 10_500), ReceiptDecision::Defer);
    assert_eq!(t.deferred(Some("$c".to_string()), 11_000), Some("$c".to_string()));
    assert_eq!(t.deferred(Some("$c".to_string()), 12_000), None);
}

#[test]
fn echo_bookkeeping() {
    let items = vec![Some("$a".to_string()), None, Some("$b".to_string()), None];
    assert_eq!(latest_remote_event_id(&items).as_deref(), Some("$b"));
    assert_eq!(latest_remote_event_id(&vec![None]), None);
    let echoes = vec![(None, None), (Some("t1".to_string()), Some(5)), (Some("t2".to_string()), None)];
    assert_eq!(created_at_of(&echoes, "t1"), Some(5));
    assert_eq!(created_at_of(&echoes, "t2"), None);
    assert_eq!(created_at_of(&echoes, "t3"), None);
    assert_eq!(unique_handle(&vec![1, 5, 7], 5), Some(1));
    assert_eq!(unique_handle(&vec![5, 5], 5), None);
    assert_eq!(unique_handle(&vec![1], 5), None);
    assert_eq!(prune_handles(&vec![1, 5, 7], &vec![7, 1]), vec![1, 7]);
}

#[test]
fn civil_dates_reach_the_earliest_day_number() {
    assert_eq!(civil_from_days(i64::MIN), (-25252734927764585, 6, 7));
    assert_eq!(civil_from_days(i64::MIN + 1000), (-25252734927764582, 3, 3));
}
