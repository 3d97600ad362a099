use vesper::live::{
    map_presence_state, notification_content, preview_body, should_notify, truncate, MessageContent, PresenceState,
    TypingManager,
};
use vesper::live::{publish_typing, typing_name};
use vesper::model::Presence;

#[test]
fn typing_arms_and_stops() {
    let mut m = TypingManager::new();
    let step = m.set("!r:x", true);
    assert!(step.send && step.arm);
    assert_eq!(step.cancel, None);
    m.armed("!r:x", 7);
    let step = m.set("!r:x", true);
    assert_eq!(step.cancel, Some(7), "re-typing cancels the pending reset");
    m.armed("!r:x", 8);
    let step = m.set("!r:x", false);
    assert_eq!(step.cancel, Some(8));
    assert!(!step.send && !step.arm);
    assert!(m.rooms.is_empty(), "stopping forgets the room");
}

#[test]
fn idle_reset_clears_the_slot_and_sends_stopped() {
    let mut m = TypingManager::new();
    m.set("!r:x", true);
    m.armed("!r:x", 3);
    assert!(m.idle_elapsed("!r:x"));
    assert_eq!(m.rooms[0].1, None);
    assert_eq!(m.set("!r:x", false).cancel, None);
}

#[test]
fn abort_all_cancels_every_timer() {
    let mut m = TypingManager::new();
    m.set("!a:x", true);
    m.armed("!a:x", 1);
    m.set("!b:x", true);
    m.armed("!b:x", 2);
    m.set("!c:x", true);
    let mut cancelled = m.abort_all();
    cancelled.sort();
    assert_eq!(cancelled, vec![1, 2]);
    assert!(m.rooms.is_empty());
}

#[test]
fn presence_maps_unknown_to_offline() {
    assert_eq!(map_presence_state(PresenceState::Online), Presence::Online);
    assert_eq!(map_presence_state(PresenceState::Unavailable), Presence::Away);
    assert_eq!(map_presence_state(PresenceState::Unknown), Presence::Offline);
}

#[test]
fn previews_are_cut_with_an_ellipsis() {
    assert_eq!(truncate("abc".into(), 3), "abc");
    assert_eq!(truncate("abcd".into(), 3), "abc\u{2026}");
    assert_eq!(truncate("ééé".into(), 2), "éé\u{2026}");
    assert_eq!(preview_body(&MessageContent::Image), "[image]");
    let long = "x".repeat(100);
    let (title, body) = notification_content("@a:x", None, &MessageContent::Text(long));
    assert_eq!(title, "@a:x");
    assert_eq!(body.chars().count(), 81);
}

#[test]
fn notifications_skip_own_focused_and_open_rooms() {
    assert!(!should_notify(Some("@me:x"), "@me:x", false, None, "!r:x"));
    assert!(!should_notify(Some("@me:x"), "@a:x", true, None, "!r:x"));
    assert!(!should_notify(Some("@me:x"), "@a:x", false, Some("!r:x"), "!r:x"));
    assert!(should_notify(Some("@me:x"), "@a:x", false, Some("!s:x"), "!r:x"));
    assert!(should_notify(None, "@a:x", false, None, "!r:x"));
}

#[test]
fn typing_lists_are_published_only_when_they_change() {
    let mut typing: Vec<(String, Vec<String>)> = Vec::new();
    let ann = typing_name(Some("Ann"), "@ann:x");
    let bob = typing_name(None, "@bob:x");
    assert_eq!((ann.as_str(), bob.as_str()), ("Ann", "@bob:x"));
    assert!(publish_typing(&mut typing, "!r:x", vec![ann.clone(), bob.clone()]));
    assert_eq!(typing, vec![("!r:x".to_string(), vec!["Ann".to_string(), "@bob:x".to_string()])]);
    assert!(!publish_typing(&mut typing, "!r:x", vec![ann.clone(), bob.clone()]));
    assert!(publish_typing(&mut typing, "!r:x", vec![bob.clone()]));
    assert_eq!(typing[0].1, vec!["@bob:x".to_string()]);
    assert!(publish_typing(&mut typing, "!r:x", Vec::new()));
    assert!(typing.is_empty());
    // An empty list for a room nobody typed in still counts as a change.
    assert!(publish_typing(&mut typing, "!q:x", Vec::new()));
    assert!(typing.is_empty());
}
