use vesper::error::ClientErrorKind;
use vesper::mock::MockClient;
use vesper::model::{ConvoKind, VerificationAction, VerificationState, VerificationTarget};

#[test]
fn seed_has_the_fixture_lists() {
    let m = MockClient::default();
    assert_eq!(m.me().name, "You");
    assert_eq!(m.spaces().len(), 2);
    assert_eq!(m.conversations().len(), 8);
    assert_eq!(m.messages("general").len(), 4);
    assert_eq!(m.messages("nope").len(), 0);
    assert_eq!(m.thread("general", "g1").len(), 3);
    assert_eq!(m.devices().len(), 3);
    assert_eq!(m.notification_rules().unwrap().len(), 4);
    assert_eq!(m.prefs().theme, "dark");
}

#[test]
fn send_message_appends_a_minted_message() {
    let mut m = MockClient::default();
    let sent = m.send_message("general", "hello".into(), None, None);
    assert_eq!(sent.id, "new-1");
    assert_eq!(sent.from, "You");
    assert_eq!(sent.time, "now");
    assert!(sent.mine);
    let msgs = m.messages("general");
    assert_eq!(msgs.len(), 5);
    assert_eq!(msgs[4].text, "hello");
    let second = m.send_message("brand-new", "hi".into(), None, Some("x".into()));
    assert_eq!(second.id, "new-2");
    assert_eq!(second.reply_to.as_deref(), Some("x"));
    assert_eq!(m.messages("brand-new").len(), 1);
}

#[test]
fn reacting_twice_undoes_the_reaction() {
    let mut m = MockClient::default();
    let before = m.messages("general")[0].reactions.clone();
    let once = m.react("general", "g1", "👍");
    assert_eq!(once[0].count, 3);
    assert!(once[0].me);
    let twice = m.react("general", "g1", "👍");
    assert_eq!(twice, before);
    let added = m.react("general", "g1", "🎉");
    assert_eq!(added.len(), 2);
    assert_eq!(added[1].count, 1);
    let removed = m.react("general", "g1", "🎉");
    assert_eq!(removed.len(), 1);
    assert!(m.react("general", "missing", "👍").is_empty());
    assert!(m.react("nowhere", "g1", "👍").is_empty());
}

#[test]
fn withdrawing_an_only_vote_removes_the_reaction() {
    let mut m = MockClient::default();
    let after = m.react("general", "g4", "✅");
    assert!(after.is_empty());
}

#[test]
fn thread_reply_bumps_the_root_count() {
    let mut m = MockClient::default();
    let reply = m.send_thread_reply("general", "g1", "nice".into()).unwrap();
    assert_eq!(reply.from, "You");
    assert!(reply.mine);
    assert_eq!(m.thread("general", "g1").len(), 4);
    assert_eq!(m.messages("general")[0].thread_count, 4);
    m.send_thread_reply("general", "unknown", "x".into()).unwrap();
    assert_eq!(m.thread("general", "unknown").len(), 1);
}

#[test]
fn blank_display_name_is_refused() {
    let mut m = MockClient::default();
    let err = m.set_display_name("   ".into()).unwrap_err();
    assert_eq!(err.kind, ClientErrorKind::Invalid);
    assert_eq!(err.message, "Display name cannot be empty.");
    assert_eq!(m.set_display_name("Fox".into()).unwrap().name, "Fox");
    assert_eq!(m.me().name, "Fox");
}

#[test]
fn avatar_gets_a_minted_id() {
    let mut m = MockClient::default();
    assert_eq!(m.set_avatar("/tmp/a.png".into()).unwrap().avatar.as_deref(), Some("mock://avatar-1"));
    assert_eq!(m.set_avatar("/tmp/b.png".into()).unwrap().avatar.as_deref(), Some("mock://avatar-2"));
}

#[test]
fn sessions_can_be_renamed_and_deleted_but_not_the_current_one() {
    let mut m = MockClient::default();
    m.rename_device("d2".into(), "Phone".into()).unwrap();
    assert_eq!(m.devices()[1].name, "Phone");
    assert_eq!(m.rename_device("dx".into(), "X".into()).unwrap_err().message, "No such session.");
    let err = m.delete_device("d1".into(), "pw".into()).unwrap_err();
    assert_eq!(err.message, "Sign out instead of deleting this session.");
    assert_eq!(m.delete_device("dx".into(), "pw".into()).unwrap_err().message, "No such session.");
    m.delete_device("d2".into(), "pw".into()).unwrap();
    let ids: Vec<_> = m.devices().into_iter().map(|d| d.id).collect();
    assert_eq!(ids, vec!["d1", "d3"]);
}

#[test]
fn notification_toggles_can_be_set() {
    let mut m = MockClient::default();
    let all = m.set_notification_rule("master".into(), true).unwrap();
    assert!(all[0].enabled);
    assert!(m.notification_rules().unwrap()[0].enabled);
    let err = m.set_notification_rule("nope".into(), true).unwrap_err();
    assert_eq!(err.message, "Unknown notification setting.");
}

#[test]
fn directory_pages_through_matches() {
    let m = MockClient::default();
    let first = m.public_rooms(String::new(), None).unwrap();
    assert_eq!(first.rooms.len(), 4);
    assert_eq!(first.next.as_deref(), Some("4"));
    let second = m.public_rooms(String::new(), first.next).unwrap();
    assert_eq!(second.rooms.len(), 4);
    assert_eq!(second.next, None);
    let rust = m.public_rooms("  RUST ".into(), None).unwrap();
    assert_eq!(rust.rooms.len(), 1);
    assert_eq!(rust.rooms[0].id, "rust");
    let stale = m.public_rooms("rust".into(), Some("40".into())).unwrap();
    assert!(stale.rooms.is_empty());
    assert_eq!(stale.next, None);
    let garbage = m.public_spaces(String::new(), Some("x".into())).unwrap();
    assert_eq!(garbage.spaces.len(), 4);
    assert_eq!(garbage.next.as_deref(), Some("4"));
    let by_topic = m.public_spaces("e2ee".into(), None).unwrap();
    assert_eq!(by_topic.spaces[0].id, "privacy-tools");
}

#[test]
fn joining_and_leaving() {
    let mut m = MockClient::default();
    let err = m.join_room("forbidden-room").unwrap_err();
    assert_eq!(err.kind, ClientErrorKind::Auth);
    m.join_room("rust").unwrap();
    let convos = m.conversations();
    let joined = convos.last().unwrap();
    assert_eq!(joined.id, "rust");
    assert_eq!(joined.name, "rust:matrix.org");
    assert_eq!(joined.last, "You joined this room");
    assert_eq!(joined.members, Some(3100));
    m.join_room("rust").unwrap();
    assert_eq!(m.conversations().len(), 9);
    m.join_room("indie-devs").unwrap();
    assert_eq!(m.spaces().len(), 3);
    m.join_room("#unknown:server").unwrap();
    assert_eq!(m.conversations().last().unwrap().name, "#unknown:server");
    m.leave_room("rust").unwrap();
    assert!(m.conversations().iter().all(|c| c.id != "rust"));
    m.leave_room("indie-devs").unwrap();
    assert_eq!(m.spaces().len(), 2);
    let err = m.leave_room("rust").unwrap_err();
    assert_eq!(err.message, "That room isn't in your list anymore.");
}

#[test]
fn scripted_verification_confirms_the_device() {
    let mut m = MockClient::default();
    m.start_verification(VerificationTarget::Device("d2".into()));
    assert!(m.verification.is_none(), "nothing before the UI attaches");
    m.bind_state();
    m.start_verification(VerificationTarget::Device("d2".into()));
    let s = m.verification.clone().unwrap();
    assert_eq!(s.subject, "Vesper · iOS");
    assert_eq!(s.state, VerificationState::EmojisShown);
    assert_eq!(s.emojis.len(), 7);
    assert_eq!(s.emojis[0].description, "Cat");
    m.verification_action(VerificationAction::Confirm);
    assert_eq!(m.verification.clone().unwrap().state, VerificationState::Done);
    assert!(m.devices()[1].verified);
}

#[test]
fn mismatch_cancels_the_session() {
    let mut m = MockClient::default();
    m.bind_state();
    m.start_verification(VerificationTarget::User("@akari:vesper.chat".into()));
    assert_eq!(m.verification.clone().unwrap().subject, "");
    m.verification_action(VerificationAction::Mismatch);
    assert_eq!(m.verification.clone().unwrap().state, VerificationState::Cancelled);
}

#[test]
fn mock_prefs_are_replaced_whole() {
    let mut c = MockClient::default();
    assert_eq!(c.prefs().theme, "dark");
    let mut p = c.prefs();
    p.theme = "light".to_string();
    p.read_receipts = false;
    assert!(c.set_prefs(p.clone()).is_ok());
    assert_eq!(c.prefs(), p);
}

#[test]
fn seeded_rooms_sit_in_the_spaces_that_list_them() {
    let m = MockClient::default();
    let convos = m.conversations();
    let kinds: Vec<(String, ConvoKind)> = convos.iter().map(|c| (c.id.clone(), c.kind)).collect();
    assert_eq!(kinds.iter().filter(|(_, k)| *k == ConvoKind::Dm).count(), 3);
    assert_eq!(kinds.iter().filter(|(_, k)| *k == ConvoKind::Room).count(), 5);
    let spaces = m.spaces();
    for c in convos.iter().filter(|c| c.kind == ConvoKind::Room) {
        let space = c.space.clone().expect("every seeded room is in a space");
        let s = spaces.iter().find(|s| s.id == space).expect("its space is joined");
        assert!(s.children.contains(&c.id));
    }
    assert_eq!(m.messages("general")[0].id, "g1");
    assert_eq!(m.messages("general")[0].thread_count, 3);
    assert_eq!(m.thread("general", "g1").len(), 3);
}

#[test]
fn joining_from_the_directory_copies_the_row() {
    let mut m = MockClient::default();
    assert!(m.join_room("fosdem").is_ok());
    let convos = m.conversations();
    let c = convos.last().unwrap();
    assert_eq!(c.id, "fosdem");
    assert_eq!(c.name, "fosdem:matrix.org");
    assert_eq!(c.topic.as_deref(), Some("FOSDEM conference chat"));
    assert_eq!(c.members, Some(2400));
    assert_eq!(c.kind, ConvoKind::Room);
}

#[test]
fn reacting_twice_on_a_seeded_message_restores_it() {
    let mut m = MockClient::default();
    let before = m.messages("general")[3].reactions.clone();
    assert!(before.iter().all(|r| r.count >= 1));
    let once = m.react("general", "g4", "✅");
    assert!(once.is_empty());
    let twice = m.react("general", "g4", "✅");
    assert_eq!(twice, before);
    let devices = m.devices();
    assert_eq!(devices.iter().filter(|d| d.current).count(), 1);
    assert_eq!(devices[0].id, "d1");
}
