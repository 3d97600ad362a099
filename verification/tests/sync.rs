use vesper::model::{Convo, ConvoKind, Space};
use vesper::sync::{apply_diffs, placeholder_convo, space_membership, space_of, visible_convos, ListDiff, RowState};

fn space(id: &str, children: &[&str]) -> Space {
    Space {
        id: id.into(),
        name: id.into(),
        avatar: None,
        members: None,
        children: children.iter().map(|c| (*c).into()).collect(),
    }
}

#[test]
fn space_membership_first_space_wins() {
    let spaces = vec![space("one", &["a", "b"]), space("two", &["b", "c"])];
    let membership = space_membership(&spaces);
    assert_eq!(space_of(&membership, "a").as_deref(), Some("one"));
    assert_eq!(space_of(&membership, "b").as_deref(), Some("one"));
    assert_eq!(space_of(&membership, "c").as_deref(), Some("two"));
}

#[test]
fn space_membership_empty_for_ungrouped() {
    let membership = space_membership(&vec![space("one", &["a"])]);
    assert!(space_of(&membership, "z").is_none());
}

#[test]
fn apply_diffs_handles_every_variant() {
    let mut v: Vec<i32> = Vec::new();
    apply_diffs(&mut v, vec![ListDiff::Append { values: vec![1, 2, 3] }]);
    assert_eq!(v, [1, 2, 3]);

    apply_diffs(&mut v, vec![ListDiff::PushFront { value: 0 }, ListDiff::PushBack { value: 4 }]);
    assert_eq!(v, [0, 1, 2, 3, 4]);

    apply_diffs(&mut v, vec![ListDiff::PopFront, ListDiff::PopBack]);
    assert_eq!(v, [1, 2, 3]);

    apply_diffs(
        &mut v,
        vec![ListDiff::Insert { index: 1, value: 9 }, ListDiff::Replace { index: 0, value: 8 }],
    );
    assert_eq!(v, [8, 9, 2, 3]);

    apply_diffs(&mut v, vec![ListDiff::Remove { index: 1 }]);
    assert_eq!(v, [8, 2, 3]);

    apply_diffs(&mut v, vec![ListDiff::Truncate { length: 2 }]);
    assert_eq!(v, [8, 2]);

    apply_diffs(&mut v, vec![ListDiff::Reset { values: vec![7] }]);
    assert_eq!(v, [7]);

    apply_diffs(&mut v, vec![ListDiff::Clear]);
    assert!(v.is_empty());
}

#[test]
fn apply_diffs_keeps_pairs_aligned() {
    let mk = |n: i32| (n, n * 10);
    let mut rows: Vec<(i32, i32)> = Vec::new();
    apply_diffs(&mut rows, vec![ListDiff::Append { values: vec![mk(1), mk(2), mk(3)] }]);
    assert_eq!(rows, vec![mk(1), mk(2), mk(3)]);

    apply_diffs(
        &mut rows,
        vec![
            ListDiff::Replace { index: 1, value: mk(9) },
            ListDiff::PushFront { value: mk(0) },
            ListDiff::Remove { index: 2 },
        ],
    );
    assert_eq!(rows, vec![mk(0), mk(1), mk(3)]);
    for (item, convo) in &rows {
        assert_eq!(*convo, item * 10, "pairs stay aligned");
    }

    apply_diffs(&mut rows, vec![ListDiff::Truncate { length: 1 }]);
    assert_eq!(rows, vec![mk(0)]);
    apply_diffs(&mut rows, vec![ListDiff::Clear]);
    assert!(rows.is_empty());
}

#[test]
fn apply_diffs_tolerates_stale_indices() {
    let mut v: Vec<i32> = Vec::new();
    apply_diffs(
        &mut v,
        vec![
            ListDiff::PopFront,
            ListDiff::PopBack,
            ListDiff::Remove { index: 5 },
            ListDiff::Replace { index: 5, value: 1 },
            ListDiff::Insert { index: 5, value: 42 },
        ],
    );
    assert_eq!(v, [42]);
}

#[test]
fn truncate_longer_than_list_changes_nothing() {
    let mut v = vec![1, 2];
    apply_diffs(&mut v, vec![ListDiff::Truncate { length: 5 }]);
    assert_eq!(v, [1, 2]);
}

#[test]
fn placeholder_is_an_empty_room() {
    let c: Convo = placeholder_convo("!x:y");
    assert_eq!(c.id, "!x:y");
    assert_eq!(c.kind, ConvoKind::Room);
    assert!(c.name.is_empty() && c.last.is_empty());
    assert_eq!(c.members, None);
}

fn child(id: &str, order: Option<&str>, ts: u64, has_via: bool) -> vesper::sync::SpaceChild {
    vesper::sync::SpaceChild { room_id: id.to_string(), order: order.map(|o| o.to_string()), ts, has_via }
}

#[test]
fn space_children_follow_order_then_time_then_id() {
    let children = vec![
        child("!b:x", Some("b"), 5, true),
        child("!a:x", None, 1, true),
        child("!c:x", Some("a"), 9, true),
        child("!d:x", None, 1, true),
        child("!e:x", None, 0, true),
        child("!x:x", Some("0"), 0, false),
    ];
    let s = vesper::sync::space_from("!s:x", Some("Team"), None, 7, &children);
    assert_eq!(s.children, vec!["!c:x", "!b:x", "!e:x", "!a:x", "!d:x"]);
    assert_eq!(s.name, "Team");
    assert_eq!(s.members, Some(7));
}

#[test]
fn unnamed_spaces_and_huge_counts() {
    let s = vesper::sync::space_from("!s:x", None, Some("mxc://x/a".to_string()), u64::MAX, &Vec::new());
    assert_eq!(s.name, "Unknown space");
    assert_eq!(s.members, Some(u32::MAX));
    assert_eq!(s.avatar.as_deref(), Some("mxc://x/a"));
    assert!(s.children.is_empty());
}

fn snapshot(direct: bool, members: Option<Vec<vesper::sync::RoomMember>>) -> vesper::sync::RoomSnapshot {
    vesper::sync::RoomSnapshot {
        room_id: "!r:x".to_string(),
        name: None,
        is_direct: direct,
        notification_count: 5_000_000_000,
        encrypted: true,
        avatar: Some("mxc://x/room".to_string()),
        topic: Some("Topic".to_string()),
        joined_members: 2,
        members,
    }
}

fn member(id: &str, avatar: Option<&str>) -> vesper::sync::RoomMember {
    vesper::sync::RoomMember { user_id: id.to_string(), avatar: avatar.map(|a| a.to_string()) }
}

#[test]
fn direct_messages_show_the_counterpart() {
    let room = snapshot(true, Some(vec![member("@me:x", Some("mxc://x/me")), member("@ann:x", None)]));
    let presence = vec![("@ann:x".to_string(), vesper::model::Presence::Away)];
    let membership = vec![("!r:x".to_string(), "!s:x".to_string())];
    let c = vesper::sync::convo_from(&room, Some("@me:x"), &presence, &membership);
    assert_eq!(c.kind, ConvoKind::Dm);
    assert_eq!(c.name, "Unknown room");
    assert_eq!(c.mxid.as_deref(), Some("@ann:x"));
    assert_eq!(c.status, Some(vesper::model::Presence::Away));
    assert_eq!(c.avatar.as_deref(), Some("mxc://x/room"));
    assert_eq!(c.unread, u32::MAX);
    assert_eq!(c.space.as_deref(), Some("!s:x"));
    assert_eq!(c.members, Some(2));
    assert_eq!(c.topic.as_deref(), Some("Topic"));
}

#[test]
fn rooms_keep_their_own_avatar_and_unloaded_members_show_nothing() {
    let c = vesper::sync::convo_from(&snapshot(false, None), None, &Vec::new(), &Vec::new());
    assert_eq!(c.kind, ConvoKind::Room);
    assert_eq!(c.mxid, None);
    assert_eq!(c.avatar.as_deref(), Some("mxc://x/room"));
    assert_eq!(c.space, None);
    let c = vesper::sync::convo_from(&snapshot(true, None), Some("@me:x"), &Vec::new(), &Vec::new());
    assert_eq!((c.mxid, c.status, c.avatar), (None, None, None));
    let alone = snapshot(true, Some(vec![member("@me:x", Some("mxc://x/me"))]));
    let c = vesper::sync::convo_from(&alone, Some("@me:x"), &Vec::new(), &Vec::new());
    assert_eq!((c.mxid, c.avatar.as_deref()), (None, Some("mxc://x/room")));
    let c = vesper::sync::convo_from(&alone, None, &Vec::new(), &Vec::new());
    assert_eq!((c.mxid.as_deref(), c.avatar.as_deref()), (Some("@me:x"), Some("mxc://x/me")));
}

#[test]
fn rows_pair_with_their_conversations_and_spaces_are_cached() {
    let mut cache: Vec<(String, Space)> = Vec::new();
    let c = vesper::sync::pair_row("!s:x", vesper::sync::RowKind::Space(space("!s:x", &["!a:x"])), &mut cache);
    assert_eq!(c.id, "");
    assert_eq!(cache.len(), 1);
    let joined = placeholder_convo("!a:x");
    let c = vesper::sync::pair_row("!a:x", vesper::sync::RowKind::Joined(joined.clone()), &mut cache);
    assert_eq!(c, joined);
    assert_eq!(cache.len(), 1);
    // A room that stopped being a space leaves the cache.
    let c = vesper::sync::pair_row("!s:x", vesper::sync::RowKind::Other, &mut cache);
    assert_eq!(c.id, "!s:x");
    assert!(cache.is_empty());
}

#[test]
fn only_joined_non_space_rows_are_published() {

    let rows = vec![
        (RowState { joined: true, is_space: false }, placeholder_convo("!a:x")),
        (RowState { joined: true, is_space: true }, placeholder_convo("")),
        (RowState { joined: false, is_space: false }, placeholder_convo("!i:x")),
        (RowState { joined: true, is_space: false }, placeholder_convo("!b:x")),
    ];
    let ids: Vec<String> = visible_convos(&rows).into_iter().map(|c| c.id).collect();
    assert_eq!(ids, vec!["!a:x", "!b:x"]);
}
