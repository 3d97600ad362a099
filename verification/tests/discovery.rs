use vesper::discovery::{row_state, row_summary, set_row_state, topic_or_none, JoinRow};

#[test]
fn rows_read_their_attempt_then_membership() {
    let mut attempts: Vec<(String, JoinRow)> = Vec::new();
    let joined = vec!["!j:x".to_string()];
    assert_eq!(row_state(&attempts, &joined, "!j:x"), JoinRow::Joined);
    assert_eq!(row_state(&attempts, &joined, "!n:x"), JoinRow::Idle);
    set_row_state(&mut attempts, "!n:x", JoinRow::Joining);
    assert_eq!(row_state(&attempts, &joined, "!n:x"), JoinRow::Joining);
    set_row_state(&mut attempts, "!n:x", JoinRow::Failed("nope".to_string()));
    assert_eq!(row_state(&attempts, &joined, "!n:x"), JoinRow::Failed("nope".to_string()));
    assert_eq!(attempts.len(), 1);
}

#[test]
fn summaries_name_topic_and_members() {
    assert_eq!(topic_or_none(""), "No topic");
    assert_eq!(topic_or_none("Rust"), "Rust");
    assert_eq!(row_summary("Rust", 42), "Rust \u{b7} 42 members");
    assert_eq!(row_summary("", 0), "No topic \u{b7} 0 members");
}

use vesper::discovery::{join_button, DirPage, DirectoryState, DiscoveryTab};
use vesper::model::PublicRoom;

fn public_room(id: &str) -> PublicRoom {
    PublicRoom { id: id.to_string(), name: id.to_string(), members: 1, topic: String::new() }
}

#[test]
fn join_buttons_follow_the_row_state() {
    assert_eq!(join_button(&JoinRow::Idle), ("Join", true));
    assert_eq!(join_button(&JoinRow::Joining), ("Joining\u{2026}", false));
    assert_eq!(join_button(&JoinRow::Joined), ("Joined", false));
    assert_eq!(join_button(&JoinRow::Failed("x".to_string())), ("Retry", true));
}

#[test]
fn searches_debounce_and_only_the_newest_fetch_writes() {
    let mut s = DirectoryState::new();
    assert_eq!(s.list_notice(), Some("Searching\u{2026}"));
    let first = s.start_fetch();
    assert_eq!((first.tab, first.query.as_str(), first.token.clone(), first.generation), (DiscoveryTab::Rooms, "", None, 1));
    s.query = "rust".to_string();
    assert!(!s.debounce_elapsed("ru"));
    assert!(s.debounce_elapsed("rust"));
    assert!(!s.debounce_elapsed("rust"));
    let second = s.start_fetch();
    assert_eq!(second.generation, 2);
    assert_eq!(second.query, "rust");
    // The stale first page is ignored.
    s.first_page_arrived(first.generation, Ok(DirPage::Rooms(vec![public_room("!old:x")], None)));
    assert!(s.loading);
    assert!(s.rooms.is_empty());
    s.first_page_arrived(second.generation, Ok(DirPage::Rooms(vec![public_room("!a:x")], Some("t1".to_string()))));
    assert!(!s.loading);
    assert_eq!(s.rooms.len(), 1);
    assert_eq!(s.list_notice(), None);
    assert_eq!(s.more_button(), Some("Show more"));
    let more = s.load_more().expect("a next page");
    assert_eq!(more.token.as_deref(), Some("t1"));
    assert_eq!(s.more_button(), Some("Loading\u{2026}"));
    s.more_arrived(more.generation, Ok(DirPage::Rooms(vec![public_room("!b:x")], None)));
    assert_eq!(s.rooms.len(), 2);
    assert_eq!(s.more_button(), None);
    assert!(s.load_more().is_none());
}

#[test]
fn errors_show_and_empty_tabs_say_so() {
    let mut s = DirectoryState::new();
    let req = s.start_fetch();
    s.first_page_arrived(req.generation, Err("boom".to_string()));
    assert_eq!(s.error.as_deref(), Some("boom"));
    assert_eq!(s.list_notice(), None);
    s.tab = DiscoveryTab::Spaces;
    let req = s.start_fetch();
    assert!(s.error.is_none());
    s.first_page_arrived(req.generation, Ok(DirPage::Spaces(Vec::new(), None)));
    assert_eq!(s.list_notice(), Some("No spaces found."));
}
