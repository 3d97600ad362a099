use vesper::chat::{
    painted_reply, thread_rows,
    composer_send, sends_on_key, staged_attachment, typing_on_input,
    active_convo, call_for, call_participants, call_subtitle, composer_placeholder, control_colors, convos_of_kind,
    image_aspect, inline_image_source, latest_is_pending_mine, members_label, optimistic_message, profile_for_name,
    react_locally, replies_label, reply_preview, reply_source, seen_by_label, should_pin, shows_bubble, switcher_results,
    typing_label,
};
use vesper::mock::{dm, msg, room};
use vesper::model::{Attachment, AttachmentKind, ConvoKind, Presence, SendState};

#[test]
fn headers_and_placeholders() {
    let r = room("!r:x", "!s:x", "general", "", 12, "", 0, false);
    let d = dm("!d:x", "Ann", "@ann:x", Presence::Online, "", 0);
    assert_eq!(composer_placeholder(&r), "Message #general");
    assert_eq!(composer_placeholder(&d), "Message Ann");
    assert_eq!(members_label(&r), "12 members");
    assert_eq!(members_label(&d), "@ann:x");
}

#[test]
fn typing_lines() {
    let names = |v: &[&str]| v.iter().map(|s| s.to_string()).collect::<Vec<String>>();
    assert_eq!(typing_label(&names(&[])), None);
    assert_eq!(typing_label(&names(&["Ann"])).as_deref(), Some("Ann is typing\u{2026}"));
    assert_eq!(typing_label(&names(&["Ann", "Bob"])).as_deref(), Some("Ann and Bob are typing\u{2026}"));
    assert_eq!(typing_label(&names(&["A", "B", "C"])).as_deref(), Some("3 people are typing\u{2026}"));
}

#[test]
fn optimistic_rows_and_local_reactions() {
    let m = optimistic_message(7, "hi".to_string(), Some("$r".to_string()), None);
    assert_eq!((m.id.as_str(), m.from.as_str(), m.time.as_str()), ("pending-7", "You", "now"));
    assert!(m.mine && !m.system);
    assert_eq!(m.reply_to.as_deref(), Some("$r"));
    let mut list = vec![msg("a", "Ann", "09:00", "x"), msg("b", "Bob", "09:01", "y")];
    react_locally(&mut list, "b", "\u{1f44d}");
    assert!(list[0].reactions.is_empty());
    assert_eq!(list[1].reactions.len(), 1);
    assert!(list[1].reactions[0].me);
    react_locally(&mut list, "b", "\u{1f44d}");
    assert!(list[1].reactions.is_empty());
}

#[test]
fn pinning_follows_the_reader_and_own_sends() {
    let mut list = vec![msg("a", "Ann", "09:00", "x")];
    assert!(!latest_is_pending_mine(&list));
    let mut mine = optimistic_message(1, "y".to_string(), None, None);
    mine.send_state = SendState::Sending;
    list.push(mine);
    assert!(latest_is_pending_mine(&list));
    assert!(!latest_is_pending_mine(&Vec::new()));
    assert!(should_pin(false, true, false));
    assert!(!should_pin(false, false, false));
}

fn image(thumb: bool) -> Attachment {
    let mut a = Attachment::new(AttachmentKind::Image, "cat.png".to_string(), "1 KB".to_string());
    a.mxc = Some("mxc://x/full".to_string());
    if thumb {
        a.thumb_mxc = Some("mxc://x/thumb".to_string());
    }
    a
}

#[test]
fn rows_prefer_thumbnails_and_hide_filename_bubbles() {
    assert_eq!(inline_image_source(&Some(image(true))).0.as_deref(), Some("mxc://x/thumb"));
    assert_eq!(inline_image_source(&Some(image(false))).0.as_deref(), Some("mxc://x/full"));
    assert_eq!(inline_image_source(&None), (None, None));
    let mut m = msg("a", "Ann", "09:00", "cat.png");
    m.attachment = Some(image(false));
    assert!(!shows_bubble(&m));
    m.text = "look at this".to_string();
    assert!(shows_bubble(&m));
    m.text = String::new();
    assert!(!shows_bubble(&m));
    assert_eq!(image_aspect(Some(4), Some(3)), "aspect-ratio:4/3;");
    assert_eq!(image_aspect(Some(0), Some(3)), "");
}

#[test]
fn replies_seen_lines_and_thread_badges() {
    let all = vec![msg("a", "Ann", "09:00", "first"), msg("b", "Bob", "09:01", "second")];
    let mut m = msg("c", "Cy", "09:02", "re");
    assert_eq!(reply_source(&m, &all), None);
    m.reply_to = Some("b".to_string());
    let i = reply_source(&m, &all).expect("found");
    assert_eq!(reply_preview(&all[i]), "Bob: second");
    m.reply_to = Some("zzz".to_string());
    assert_eq!(reply_source(&m, &all), None);
    assert_eq!(seen_by_label(&Vec::new()), None);
    assert_eq!(seen_by_label(&vec!["Ann".to_string(), "Bob".to_string()]).as_deref(), Some(" Seen by Ann, Bob"));
    assert_eq!(replies_label(0), None);
    assert_eq!(replies_label(3).as_deref(), Some("3 replies"));
}

#[test]
fn the_view_picks_its_conversation_and_profiles() {
    let all = vec![
        dm("!d:x", "Ann Lee", "@ann:x", Presence::Away, "", 0),
        room("!r:x", "!s:x", "general", "", 3, "", 0, false),
        room("!q:x", "!s:x", "random", "", 3, "", 0, false),
    ];
    assert_eq!(convos_of_kind(&all, ConvoKind::Room).len(), 2);
    assert_eq!(convos_of_kind(&all, ConvoKind::Dm)[0].id, "!d:x");
    assert_eq!(active_convo(&all, Some("!q:x")), Some(2));
    assert_eq!(active_convo(&all, Some("!nope:x")), Some(1));
    assert_eq!(active_convo(&all, None), Some(1));
    assert_eq!(active_convo(&vec![all[0].clone()], None), None);
    let dms = convos_of_kind(&all, ConvoKind::Dm);
    let t = profile_for_name(&dms, "Ann Lee");
    assert_eq!(t.id.as_deref(), Some("!d:x"));
    let t = profile_for_name(&dms, "Mira Solheim");
    assert_eq!(t.mxid.as_deref(), Some("@mirasolheim:matrix.org"));
    assert_eq!(t.status, Some(Presence::Online));
}

#[test]
fn calls_show_their_participants() {
    let d = dm("!d:x", "Ann", "@ann:x", Presence::Online, "", 0);
    let call = call_for(&d, true);
    assert!(call.is_dm && call.video);
    assert_eq!(call_subtitle(&call), "Ann \u{b7} Video call");
    let ps = call_participants(&call, false);
    assert_eq!(ps.len(), 2);
    assert!(ps[0].me && ps[0].muted);
    assert_eq!(ps[1].name, "Ann");
    let group = call_for(&room("!r:x", "!s:x", "general", "", 3, "", 0, false), false);
    assert_eq!(call_subtitle(&group), "general \u{b7} Voice call");
    let ps = call_participants(&group, true);
    assert_eq!(ps.len(), 4);
    assert!(!ps[0].muted && ps[2].muted);
    assert_eq!(control_colors(true, true), ("var(--status-danger)", "var(--white)"));
    assert_eq!(control_colors(false, false), ("var(--white)", "var(--black)"));
}

#[test]
fn the_switcher_matches_names_ignoring_case() {
    let dms = vec![dm("!d:x", "Ann Lee", "@ann:x", Presence::Away, "", 0)];
    let rooms = vec![
        room("!r:x", "!s:x", "General", "", 3, "", 0, false),
        room("!q:x", "!s:x", "annex", "", 3, "", 0, false),
    ];
    let ids = |v: Vec<vesper::model::Convo>| v.into_iter().map(|c| c.id).collect::<Vec<String>>();
    assert_eq!(ids(switcher_results(&dms, &rooms, "ANN")), vec!["!d:x", "!q:x"]);
    assert_eq!(ids(switcher_results(&dms, &rooms, "")).len(), 3);
    assert!(switcher_results(&dms, &rooms, "zzz").is_empty());
}

#[test]
fn the_composer_sends_trimmed_drafts_or_attachments() {
    assert_eq!(composer_send("   ", None), None);
    assert_eq!(composer_send("  hi  ", None), Some(("hi".to_string(), None)));
    let a = staged_attachment("/tmp/Photo.JPG", Some("Photo.JPG"), Some(1_500));
    assert_eq!(a.kind, AttachmentKind::Image);
    assert_eq!((a.name.as_str(), a.size.as_str()), ("Photo.JPG", "2 KB"));
    assert_eq!(a.local_path.as_deref(), Some("/tmp/Photo.JPG"));
    let (text, att) = composer_send("", Some(a.clone())).expect("attachment alone sends");
    assert_eq!(text, "");
    assert_eq!(att, Some(a));
    let f = staged_attachment("/tmp/notes", None, None);
    assert_eq!((f.kind, f.name.as_str(), f.size.as_str()), (AttachmentKind::File, "file", ""));
    assert!(typing_on_input("h") && !typing_on_input(""));
    assert!(sends_on_key(true, false) && !sends_on_key(true, true) && !sends_on_key(false, false));
}

#[test]
fn thread_panels_prefer_the_live_thread() {
    let reply = |t: &str| vesper::model::ThreadReply { from: "Ann".to_string(), time: "09:00".to_string(), mine: false, text: t.to_string() };
    let fetched = vec![reply("a")];
    let painted = vec![painted_reply("b", false).expect("painted")];
    assert_eq!(painted[0].from, "You");
    assert!(painted_reply("", false).is_none());
    assert!(painted_reply("b", true).is_none());
    let rows = thread_rows(None, &fetched, &painted);
    assert_eq!(rows.iter().map(|r| r.text.as_str()).collect::<Vec<_>>(), vec!["a", "b"]);
    let live = vec![reply("x")];
    assert_eq!(thread_rows(Some(&live), &fetched, &painted), live);
}
