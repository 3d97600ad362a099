use vesper::media::{MediaContent, MediaSource};
use vesper::model::{AttachmentKind, SendState};
use vesper::timeline::{
    aggregate_reactions, map_event, map_item, map_virtual, membership_text, profile_change_text, row_text,
    thread_reply_row, thread_row_text, txn_of, EchoState, EventContent, EventKey, MembershipChange, MessageType,
    MsgLike, MsgLikeEvent, SenderProfile, TimelineEvent, TimelineItem, VirtualItem,
};

fn text(body: &str, edited: bool) -> MsgLike {
    MsgLike::Message { msgtype: MessageType::Text(body.to_string()), edited }
}

fn event(content: EventContent) -> TimelineEvent {
    TimelineEvent {
        key: EventKey::Remote("$e1".to_string()),
        echo: None,
        sender: "@ann:x".to_string(),
        profile: Some(SenderProfile { display_name: Some("Ann".to_string()), avatar: Some("mxc://x/ann".to_string()) }),
        timestamp_ms: 3_600_000,
        own: false,
        content,
    }
}

fn msglike(kind: MsgLike) -> EventContent {
    EventContent::MsgLike(MsgLikeEvent {
        kind,
        reactions: vec![("👍".to_string(), vec!["@me:x".to_string(), "@bob:x".to_string()])],
        in_reply_to: Some("$root".to_string()),
        thread_replies: Some(3),
    })
}

#[test]
fn row_texts_follow_the_event_kind() {
    assert_eq!(row_text(&text("hi", false), "Ann"), ("hi".to_string(), false));
    assert_eq!(row_text(&text("hi", true), "Ann"), ("hi (edited)".to_string(), false));
    let emote = MsgLike::Message { msgtype: MessageType::Emote("waves".to_string()), edited: true };
    assert_eq!(row_text(&emote, "Ann"), ("Ann waves".to_string(), true));
    let loc = MsgLike::Message {
        msgtype: MessageType::Location { body: "Here".to_string(), geo_uri: "geo:1,2".to_string() },
        edited: false,
    };
    assert_eq!(row_text(&loc, "Ann"), ("[location: geo:1,2]".to_string(), false));
    assert_eq!(thread_row_text(&loc), Some("Here".to_string()));
    assert_eq!(row_text(&MsgLike::Redacted, "Ann"), ("message removed".to_string(), true));
    assert_eq!(row_text(&MsgLike::Sticker("cat".to_string()), "Ann"), ("sticker: cat".to_string(), false));
    assert_eq!(row_text(&MsgLike::Poll, "Ann"), ("[poll \u{2014} open in another client]".to_string(), true));
    assert_eq!(thread_row_text(&MsgLike::Poll), None);
    assert_eq!(thread_row_text(&MsgLike::UnableToDecrypt), Some("\u{1f512} unable to decrypt".to_string()));
}

#[test]
fn membership_and_profile_rows() {
    assert_eq!(membership_text(Some("Ann"), "@ann:x", Some(MembershipChange::Joined)), "Ann joined the room");
    assert_eq!(membership_text(Some(""), "@ann:x", Some(MembershipChange::Banned)), "@ann:x was banned");
    assert_eq!(membership_text(None, "@ann:x", None), "@ann:x changed membership");
    assert_eq!(profile_change_text("Ann", Some((Some("Ann"), Some("Anna")))), "Ann is now known as Anna");
    assert_eq!(profile_change_text("Ann", Some((Some("Ann"), None))), "Ann removed their display name");
    assert_eq!(profile_change_text("Ann", None), "Ann changed their profile");
}

#[test]
fn reactions_count_senders_and_spot_our_own() {
    let r = aggregate_reactions(
        &vec![("👍".to_string(), vec!["@me:x".to_string(), "@bob:x".to_string()]), ("🎉".to_string(), vec![])],
        "@me:x",
    );
    assert_eq!(r.len(), 2);
    assert_eq!((r[0].emoji.as_str(), r[0].count, r[0].me), ("👍", 2, true));
    assert_eq!((r[1].emoji.as_str(), r[1].count, r[1].me), ("🎉", 0, false));
}

#[test]
fn echo_ids_carry_their_transaction() {
    assert_eq!(txn_of("txn-abc"), Some("abc".to_string()));
    assert_eq!(txn_of("$event"), None);
}

#[test]
fn message_events_map_to_full_rows() {
    let m = map_event(&event(msglike(text("hello", false))), "@me:x").expect("a row");
    assert_eq!(m.id, "$e1");
    assert_eq!(m.from, "Ann");
    assert_eq!(m.time, "01:00");
    assert_eq!(m.text, "hello");
    assert!(!m.system && !m.mine);
    assert_eq!(m.reply_to.as_deref(), Some("$root"));
    assert_eq!(m.thread_count, 3);
    assert_eq!(m.reactions.len(), 1);
    assert!(m.reactions[0].me);
    assert_eq!(m.avatar.as_deref(), Some("mxc://x/ann"));
    assert_eq!(m.send_state, SendState::Sent);
    assert!(m.attachment.is_none());
}

#[test]
fn emotes_skip_the_thread_count() {
    let emote = MsgLike::Message { msgtype: MessageType::Emote("waves".to_string()), edited: false };
    let m = map_event(&event(msglike(emote)), "@me:x").expect("a row");
    assert_eq!(m.text, "Ann waves");
    assert!(m.system);
    assert_eq!(m.thread_count, 0);
    assert_eq!(m.reply_to.as_deref(), Some("$root"));
}

#[test]
fn echoes_are_keyed_by_transaction_and_show_their_state() {
    let mut ev = event(EventContent::CallInvite);
    ev.key = EventKey::Local("t1".to_string());
    ev.echo = Some(EchoState::NotSentYet);
    ev.profile = None;
    ev.own = true;
    let m = map_event(&ev, "@ann:x").expect("a row");
    assert_eq!(m.id, "txn-t1");
    assert_eq!(m.from, "@ann:x");
    assert_eq!(m.text, "started a call");
    assert!(m.system && m.mine);
    assert_eq!(m.send_state, SendState::Sending);
    assert!(m.avatar.is_none());
    ev.echo = Some(EchoState::SendingFailed);
    assert_eq!(map_event(&ev, "@ann:x").expect("a row").send_state, SendState::Failed);
}

#[test]
fn media_events_carry_their_attachment() {
    let c = MediaContent {
        kind: AttachmentKind::File,
        body: "report.pdf".to_string(),
        filename: None,
        source: MediaSource::Plain("mxc://x/f".to_string()),
        mimetype: Some("application/pdf".to_string()),
        width: None,
        height: None,
        size: Some(512),
        thumbnail_source: None,
    };
    let kind = MsgLike::Message { msgtype: MessageType::Media(c), edited: false };
    let m = map_event(&event(msglike(kind)), "@me:x").expect("a row");
    assert_eq!(m.text, "report.pdf");
    let a = m.attachment.expect("attachment");
    assert_eq!(a.name, "report.pdf");
    assert_eq!(a.size, "512 B");
    assert_eq!(a.mxc.as_deref(), Some("mxc://x/f"));
}

#[test]
fn state_events_and_markers_get_no_row() {
    assert!(map_event(&event(EventContent::Hidden), "@me:x").is_none());
    assert!(map_virtual(VirtualItem::ReadMarker).is_none());
    assert!(map_item(&TimelineItem::Virtual(VirtualItem::TimelineStart), "@me:x").is_none());
    let m = map_event(
        &event(EventContent::Membership {
            display_name: None,
            user_id: "@bob:x".to_string(),
            change: Some(MembershipChange::Left),
        }),
        "@me:x",
    )
    .expect("a row");
    assert_eq!(m.text, "@bob:x left the room");
    assert!(m.system);
    assert!(m.avatar.is_none());
}

#[test]
fn day_dividers_read_the_date() {
    let m = map_virtual(VirtualItem::DateDivider(951_782_400_000)).expect("a divider");
    assert_eq!(m.id, "divider-951782400000");
    assert_eq!(m.text, "\u{2014} 2000-02-29 \u{2014}");
    assert!(m.system);
    assert_eq!(m.from, "");
}

#[test]
fn thread_rows_show_message_bodies() {
    let item = TimelineItem::Event(event(msglike(text("reply", true))));
    let r = thread_reply_row(&item).expect("a row");
    assert_eq!((r.from.as_str(), r.time.as_str(), r.text.as_str(), r.mine), ("Ann", "01:00", "reply", false));
    assert!(thread_reply_row(&TimelineItem::Event(event(msglike(MsgLike::Unsupported)))).is_none());
    assert!(thread_reply_row(&TimelineItem::Virtual(VirtualItem::ReadMarker)).is_none());
}
