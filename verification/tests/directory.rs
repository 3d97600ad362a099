use vesper::directory::{
    chunk_display_name, chunk_to_room, invalid_join_target, join_error, member_count, rooms_of, search_term,
    spaces_of, JoinFailure, RoomChunk,
};
use vesper::error::ClientErrorKind;

fn chunk(id: &str, name: Option<&str>, alias: Option<&str>, members: u64, space: bool) -> RoomChunk {
    RoomChunk {
        room_id: id.into(),
        name: name.map(Into::into),
        canonical_alias: alias.map(Into::into),
        num_joined_members: members,
        topic: None,
        is_space: space,
    }
}

#[test]
fn rows_fall_back_from_name_to_alias_to_id() {
    assert_eq!(chunk_display_name(&chunk("!a:x", Some("A"), Some("#a:x"), 1, false)), "A");
    assert_eq!(chunk_display_name(&chunk("!a:x", None, Some("#a:x"), 1, false)), "#a:x");
    assert_eq!(chunk_display_name(&chunk("!a:x", None, None, 1, false)), "!a:x");
    let row = chunk_to_room(&chunk("!a:x", None, None, 7, false));
    assert_eq!(row.topic, "");
    assert_eq!(row.members, 7);
}

#[test]
fn member_counts_saturate() {
    assert_eq!(member_count(&chunk("!a:x", None, None, u64::MAX, false)), u32::MAX);
}

#[test]
fn blank_queries_send_no_search_term() {
    assert_eq!(search_term("   "), None);
    assert_eq!(search_term("  rust "), Some("rust".to_string()));
}

#[test]
fn space_pages_keep_only_spaces() {
    let chunks = vec![chunk("!a:x", None, None, 1, false), chunk("!b:x", Some("B"), None, 2, true)];
    let spaces = spaces_of(&chunks);
    assert_eq!(spaces.len(), 1);
    assert_eq!(spaces[0].name, "B");
    assert_eq!(rooms_of(&chunks).len(), 2);
}

#[test]
fn join_errors_read_as_messages() {
    let e = join_error(&JoinFailure::RateLimited { retry_after_secs: Some(0) });
    assert_eq!(e.kind, ClientErrorKind::RateLimited);
    assert_eq!(e.message, "Rate limited — you're joining rooms too fast. Try again in 1 seconds.");
    let e = join_error(&JoinFailure::RateLimited { retry_after_secs: None });
    assert_eq!(e.message, "Rate limited — you're joining rooms too fast. Try again in a moment.");
    assert_eq!(join_error(&JoinFailure::Forbidden).message, "You can't join that room (invite-only?).");
    assert_eq!(join_error(&JoinFailure::Other("boom".into())).message, "Could not join: boom");
    assert_eq!(invalid_join_target("x").message, "“x” is not a room id or alias.");
}

#[test]
fn leave_targets_and_already_joined_rooms() {
    let e = vesper::directory::invalid_leave_target("#room:x");
    assert_eq!(e.kind, ClientErrorKind::Invalid);
    assert_eq!(e.message, "\u{201c}#room:x\u{201d} is not a room id.");
    assert_eq!(e.to_display_string(), e.message);
    assert!(vesper::directory::is_already_joined(true, true));
    assert!(!vesper::directory::is_already_joined(false, true));
    assert!(!vesper::directory::is_already_joined(true, false));
}
