use vesper::mock::{dm, room};
use vesper::model::{Me, Presence};
use vesper::profile::ProfileTarget;

#[test]
fn conversations_become_profiles() {
    let t = ProfileTarget::from_convo(room("!r:x", "!s:x", "General", "Chat", 12, "", 0, true));
    assert_eq!(t.id.as_deref(), Some("!r:x"));
    assert!(t.is_room);
    assert_eq!(t.topic.as_deref(), Some("Chat"));
    assert_eq!(t.members, Some(12));
    assert!(t.encrypted);
    let t = ProfileTarget::from_convo(dm("!d:x", "Ann", "@ann:x", Presence::Away, "", 0));
    assert!(!t.is_room);
    assert_eq!(t.mxid.as_deref(), Some("@ann:x"));
    assert_eq!(t.status, Some(Presence::Away));
}

#[test]
fn people_and_the_own_account_show_online() {
    let t = ProfileTarget::person("Bob", "@bob:x");
    assert_eq!((t.id, t.name.as_str(), t.mxid.as_deref()), (None, "Bob", Some("@bob:x")));
    assert_eq!(t.status, Some(Presence::Online));
    let me = Me { name: "Me".to_string(), id: "@me:x".to_string(), avatar: Some("mxc://x/a".to_string()) };
    let t = ProfileTarget::own(&me);
    assert_eq!(t.mxid.as_deref(), Some("@me:x"));
    assert_eq!(t.avatar.as_deref(), Some("mxc://x/a"));
    assert!(!t.is_room && !t.encrypted);
}

use vesper::model::{VerificationSession, VerificationState, VerificationTarget};
use vesper::profile::{panel_presence, panel_subtitle, verifies_contact};

#[test]
fn contacts_are_verified_only_by_their_own_session() {
    let done = |target: VerificationTarget| {
        Some(VerificationSession { subject: String::new(), target, state: VerificationState::Done, emojis: Vec::new() })
    };
    assert!(verifies_contact(&done(VerificationTarget::User("@ann:x".to_string())), "@ann:x"));
    assert!(!verifies_contact(&done(VerificationTarget::User("@bob:x".to_string())), "@ann:x"));
    assert!(!verifies_contact(&done(VerificationTarget::Device("ABC".to_string())), "@ann:x"));
    assert!(!verifies_contact(&None, "@ann:x"));
}

#[test]
fn panels_show_live_presence_and_subtitles() {
    let t = ProfileTarget::from_convo(dm("!d:x", "Ann", "@ann:x", Presence::Away, "", 0));
    assert_eq!(panel_presence(&t, &vec![("@ann:x".to_string(), Presence::Online)]), Presence::Online);
    assert_eq!(panel_presence(&t, &Vec::new()), Presence::Away);
    assert_eq!(panel_subtitle(&t), "@ann:x");
    let r = ProfileTarget::from_convo(room("!r:x", "!s:x", "General", "Chat", 12, "", 0, true));
    assert_eq!(panel_subtitle(&r), "Chat");
    assert_eq!(panel_presence(&r, &Vec::new()), Presence::Offline);
}
