//! Timeline logic: time stamps, row texts, reaction aggregation, the
//! refcounted registry of open timelines, and the read-receipt throttle.
//!
//! The protocol types of the SDK are modelled here by small enums that
//! hold exactly what the row mapping reads.

use vstd::prelude::*;

use crate::calendar::{civil_from_days, civil_spec, law_civil_round_trip};
use crate::media::{map_media, media_attachment, MediaContent};
use crate::model::{opt_view, reactions_view, Duplicate, Message, MessageView, Reaction, ReactionView, SendState, ThreadReply};
use crate::text::{
    chars_of, dec, dec_string, owned, push_dec_padded, push_str, str_eq, string_from_chars,
    strip_prefix_exec, zero_pad,
};

verus! {

/// Events requested per back-pagination page.
pub const PAGE: u16 = 30;

// ----------------------------------------------------------------------
// Time stamps
// ----------------------------------------------------------------------

/// `HH:mm` (UTC) of a unix-millisecond time stamp.
pub open spec fn format_hhmm_spec(millis: nat) -> Seq<char> {
    let sod = (millis / 1000) % 86400;
    zero_pad(dec(sod / 3600), 2) + ":"@ + zero_pad(dec((sod % 3600) / 60), 2)
}

/// `HH:mm` from unix milliseconds (UTC).
pub fn format_hhmm(millis: u64) -> (s: String)
    ensures
        s@ == format_hhmm_spec(millis as nat),
{
    let secs = millis / 1000;
    let sod = secs % 86_400;
    let mut v: Vec<char> = Vec::new();
    push_dec_padded(&mut v, sod / 3600, 2);
    push_str(&mut v, ":");
    push_dec_padded(&mut v, (sod % 3600) / 60, 2);
    assert(v@ =~= format_hhmm_spec(millis as nat));
    string_from_chars(v.as_slice())
}

/// `YYYY-MM-DD` (UTC) of a unix-millisecond time stamp.
pub open spec fn format_ymd_spec(millis: nat) -> Seq<char> {
    let date = civil_spec((millis / 86_400_000) as int);
    zero_pad(dec(date.0 as nat), 4) + "-"@ + zero_pad(dec(date.1 as nat), 2) + "-"@ + zero_pad(
        dec(date.2 as nat),
        2,
    )
}

/// `YYYY-MM-DD` from unix milliseconds (UTC).
pub fn format_ymd(millis: u64) -> (s: String)
    ensures
        s@ == format_ymd_spec(millis as nat),
{
    let q: u64 = millis / 1000 / 86_400;
    assert(q == millis / 86_400_000 && q <= 213_503_982_334) by (nonlinear_arith)
        requires
            q == millis / 1000 / 86_400,
            millis <= u64::MAX,
    ;
    let days: i64 = q as i64;
    let (y, m, d) = civil_from_days(days);
    proof {
        crate::calendar::lemma_civil_facts(days as int);
    }
    let mut v: Vec<char> = Vec::new();
    push_dec_padded(&mut v, y as u64, 4);
    push_str(&mut v, "-");
    push_dec_padded(&mut v, m as u64, 2);
    push_str(&mut v, "-");
    push_dec_padded(&mut v, d as u64, 2);
    assert(v@ =~= format_ymd_spec(millis as nat));
    string_from_chars(v.as_slice())
}

// ----------------------------------------------------------------------
// Row ids
// ----------------------------------------------------------------------

/// The raw transaction id of a local-echo row id (`txn-…`), `None` for
/// the id of a remote event.
pub fn txn_of(mapped_id: &str) -> (r: Option<String>)
    ensures
        r matches Some(t) ==> crate::text::has_prefix(mapped_id@, "txn-"@) && t@
            == mapped_id@.subrange(4, mapped_id@.len() as int),
        r is None ==> !crate::text::has_prefix(mapped_id@, "txn-"@),
{
    proof {
        reveal_strlit("txn-");
    }
    strip_prefix_exec(mapped_id, "txn-")
}

// ----------------------------------------------------------------------
// Row texts
// ----------------------------------------------------------------------

/// Membership transitions a timeline reports.
#[derive(Debug, Clone, Copy, PartialEq, Eq, Structural)]
pub enum MembershipChange {
    Joined,
    Left,
    Invited,
    InvitationAccepted,
    Kicked,
    Banned,
    Unbanned,
    Knocked,
    KnockAccepted,
    KnockDenied,
    KnockRetracted,
    InvitationRejected,
    InvitationRevoked,
    KickedAndBanned,
    /// Anything else (no change, unparsed, not implemented).
    Other,
}

/// The verb phrase of a membership row.
pub open spec fn membership_verb(c: Option<MembershipChange>) -> Seq<char> {
    match c {
        Some(MembershipChange::Joined) => "joined the room"@,
        Some(MembershipChange::Left) => "left the room"@,
        Some(MembershipChange::Invited) => "was invited"@,
        Some(MembershipChange::InvitationAccepted) => "accepted the invite"@,
        Some(MembershipChange::Kicked) => "was kicked"@,
        Some(MembershipChange::Banned) => "was banned"@,
        Some(MembershipChange::Unbanned) => "was unbanned"@,
        Some(MembershipChange::Knocked) => "knocked"@,
        Some(MembershipChange::KnockAccepted) => "knock accepted"@,
        Some(MembershipChange::KnockDenied) => "knock denied"@,
        Some(MembershipChange::KnockRetracted) => "knock retracted"@,
        Some(MembershipChange::InvitationRejected) => "declined the invite"@,
        Some(MembershipChange::InvitationRevoked) => "invite revoked"@,
        Some(MembershipChange::KickedAndBanned) => "was kicked and banned"@,
        _ => "changed membership"@,
    }
}

fn membership_verb_exec(c: Option<MembershipChange>) -> (v: &'static str)
    ensures
        v@ == membership_verb(c),
{
    match c {
        Some(MembershipChange::Joined) => "joined the room",
        Some(MembershipChange::Left) => "left the room",
        Some(MembershipChange::Invited) => "was invited",
        Some(MembershipChange::InvitationAccepted) => "accepted the invite",
        Some(MembershipChange::Kicked) => "was kicked",
        Some(MembershipChange::Banned) => "was banned",
        Some(MembershipChange::Unbanned) => "was unbanned",
        Some(MembershipChange::Knocked) => "knocked",
        Some(MembershipChange::KnockAccepted) => "knock accepted",
        Some(MembershipChange::KnockDenied) => "knock denied",
        Some(MembershipChange::KnockRetracted) => "knock retracted",
        Some(MembershipChange::InvitationRejected) => "declined the invite",
        Some(MembershipChange::InvitationRevoked) => "invite revoked",
        Some(MembershipChange::KickedAndBanned) => "was kicked and banned",
        _ => "changed membership",
    }
}

/// Who a membership row names: the display name when set and non-empty,
/// else the user id.
pub open spec fn member_label(display_name: Option<Seq<char>>, user_id: Seq<char>) -> Seq<char> {
    match display_name {
        Some(n) => if n.len() > 0 {
            n
        } else {
            user_id
        },
        None => user_id,
    }
}

/// `{who} {verb}` for a membership change row.
pub fn membership_text(
    display_name: Option<&str>,
    user_id: &str,
    change: Option<MembershipChange>,
) -> (t: String)
    ensures
        t@ == member_label(
            match display_name {
                Some(n) => Some(n@),
                None => None,
            },
            user_id@,
        ) + " "@ + membership_verb(change),
{
    let mut v: Vec<char> = Vec::new();
    match display_name {
        Some(n) if !n.is_empty() => push_str(&mut v, n),
        _ => push_str(&mut v, user_id),
    }
    push_str(&mut v, " ");
    push_str(&mut v, membership_verb_exec(change));
    string_from_chars(v.as_slice())
}

/// Text of a profile-change row: a rename, a removed name, or a generic
/// profile change. `change` is the display-name change, `(old, new)`.
pub open spec fn profile_change_spec(
    from: Seq<char>,
    change: Option<(Option<Seq<char>>, Option<Seq<char>>)>,
) -> Seq<char> {
    match change {
        Some((_, Some(new))) => from + " is now known as "@ + new,
        Some((Some(old), None)) => old + " removed their display name"@,
        _ => from + " changed their profile"@,
    }
}

/// Text of a profile-change row.
pub fn profile_change_text(from: &str, change: Option<(Option<&str>, Option<&str>)>) -> (t: String)
    ensures
        t@ == profile_change_spec(
            from@,
            match change {
                Some((o, n)) => Some(
                    (
                        match o {
                            Some(x) => Some(x@),
                            None => None,
                        },
                        match n {
                            Some(x) => Some(x@),
                            None => None,
                        },
                    ),
                ),
                None => None,
            },
        ),
{
    let mut v: Vec<char> = Vec::new();
    match change {
        Some((_, Some(new))) => {
            push_str(&mut v, from);
            push_str(&mut v, " is now known as ");
            push_str(&mut v, new);
        },
        Some((Some(old), None)) => {
            push_str(&mut v, old);
            push_str(&mut v, " removed their display name");
        },
        _ => {
            push_str(&mut v, from);
            push_str(&mut v, " changed their profile");
        },
    }
    string_from_chars(v.as_slice())
}

/// A room message's type, with what its row reads.
#[derive(Debug, Clone, PartialEq, Eq)]
pub enum MessageType {
    Text(String),
    Notice(String),
    Emote(String),
    /// Image, file, video or audio, with its media content.
    Media(MediaContent),
    /// A location share: its body and its geo URI.
    Location { body: String, geo_uri: String },
    ServerNotice(String),
    /// Any other message type, by its body.
    Other(String),
}

/// A message-like timeline event.
#[derive(Debug, Clone, PartialEq, Eq)]
pub enum MsgLike {
    Message { msgtype: MessageType, edited: bool },
    Redacted,
    UnableToDecrypt,
    Sticker(String),
    Poll,
    Unsupported,
}

/// The body a message type shows.
pub open spec fn message_body(t: MessageType) -> Seq<char> {
    match t {
        MessageType::Text(b) => b@,
        MessageType::Notice(b) => b@,
        MessageType::Emote(b) => b@,
        MessageType::Media(c) => c.body@,
        MessageType::Location { geo_uri, .. } => "[location: "@ + geo_uri@ + "]"@,
        MessageType::ServerNotice(b) => b@,
        MessageType::Other(b) => b@,
    }
}

/// `(text, system)` of a main-timeline row sent by `from`: emotes read
/// `{from} {body}` as a system row, edited messages get ` (edited)`, and
/// non-message events get fixed placeholders.
pub open spec fn row_text_spec(m: MsgLike, from: Seq<char>) -> (Seq<char>, bool) {
    match m {
        MsgLike::Message { msgtype, edited } => match msgtype {
            MessageType::Emote(b) => (from + " "@ + b@, true),
            _ => (if edited {
                message_body(msgtype) + " (edited)"@
            } else {
                message_body(msgtype)
            }, false),
        },
        MsgLike::Redacted => ("message removed"@, true),
        MsgLike::UnableToDecrypt => ("\u{1f512} unable to decrypt"@, true),
        MsgLike::Sticker(b) => ("sticker: "@ + b@, false),
        MsgLike::Poll => ("[poll \u{2014} open in another client]"@, true),
        MsgLike::Unsupported => ("[unsupported message type]"@, true),
    }
}

/// Text and system flag of a main-timeline row.
pub fn row_text(m: &MsgLike, from: &str) -> (r: (String, bool))
    ensures
        r.0@ == row_text_spec(*m, from@).0,
        r.1 == row_text_spec(*m, from@).1,
{
    let mut v: Vec<char> = Vec::new();
    let system = match m {
        MsgLike::Message { msgtype, edited } => {
            match msgtype {
                MessageType::Emote(b) => {
                    push_str(&mut v, from);
                    push_str(&mut v, " ");
                    push_str(&mut v, b.as_str());
                    true
                },
                _ => {
                    match msgtype {
                        MessageType::Location { geo_uri, .. } => {
                            push_str(&mut v, "[location: ");
                            push_str(&mut v, geo_uri.as_str());
                            push_str(&mut v, "]");
                        },
                        MessageType::Text(b) => push_str(&mut v, b.as_str()),
                        MessageType::Notice(b) => push_str(&mut v, b.as_str()),
                        MessageType::Emote(b) => push_str(&mut v, b.as_str()),
                        MessageType::Media(c) => push_str(&mut v, c.body.as_str()),
                        MessageType::ServerNotice(b) => push_str(&mut v, b.as_str()),
                        MessageType::Other(b) => push_str(&mut v, b.as_str()),
                    }
                    if *edited {
                        push_str(&mut v, " (edited)");
                    }
                    false
                },
            }
        },
        MsgLike::Redacted => {
            push_str(&mut v, "message removed");
            true
        },
        MsgLike::UnableToDecrypt => {
            push_str(&mut v, "\u{1f512} unable to decrypt");
            true
        },
        MsgLike::Sticker(b) => {
            push_str(&mut v, "sticker: ");
            push_str(&mut v, b.as_str());
            false
        },
        MsgLike::Poll => {
            push_str(&mut v, "[poll \u{2014} open in another client]");
            true
        },
        MsgLike::Unsupported => {
            push_str(&mut v, "[unsupported message type]");
            true
        },
    };
    (string_from_chars(v.as_slice()), system)
}

/// Text of a thread-panel row; `None` for events the panel skips (polls
/// and unsupported events). Messages show their raw body.
pub open spec fn thread_row_text_spec(m: MsgLike) -> Option<Seq<char>> {
    match m {
        MsgLike::Message { msgtype, .. } => Some(
            match msgtype {
                MessageType::Text(b) => b@,
                MessageType::Notice(b) => b@,
                MessageType::Emote(b) => b@,
                MessageType::Media(c) => c.body@,
                MessageType::Location { body, .. } => body@,
                MessageType::ServerNotice(b) => b@,
                MessageType::Other(b) => b@,
            },
        ),
        MsgLike::Redacted => Some("message removed"@),
        MsgLike::UnableToDecrypt => Some("\u{1f512} unable to decrypt"@),
        MsgLike::Sticker(b) => Some("sticker: "@ + b@),
        _ => None,
    }
}

/// Text of a thread-panel row.
pub fn thread_row_text(m: &MsgLike) -> (r: Option<String>)
    ensures
        match r {
            Some(t) => thread_row_text_spec(*m) == Some(t@),
            None => thread_row_text_spec(*m) is None,
        },
{
    match m {
        MsgLike::Message { msgtype, .. } => Some(
            match msgtype {
                MessageType::Text(b) => b.clone(),
                MessageType::Notice(b) => b.clone(),
                MessageType::Emote(b) => b.clone(),
                MessageType::Media(c) => c.body.clone(),
                MessageType::Location { body, .. } => body.clone(),
                MessageType::ServerNotice(b) => b.clone(),
                MessageType::Other(b) => b.clone(),
            },
        ),
        MsgLike::Redacted => Some(owned("message removed")),
        MsgLike::UnableToDecrypt => Some(owned("\u{1f512} unable to decrypt")),
        MsgLike::Sticker(b) => {
            let mut v: Vec<char> = Vec::new();
            push_str(&mut v, "sticker: ");
            push_str(&mut v, b.as_str());
            Some(string_from_chars(v.as_slice()))
        },
        _ => None,
    }
}

// ----------------------------------------------------------------------
// Reactions
// ----------------------------------------------------------------------

/// Whether `who` is among `senders`.
pub open spec fn sent_by(senders: Seq<String>, who: Seq<char>) -> bool {
    exists|k: int| 0 <= k < senders.len() && (#[trigger] senders[k])@ == who
}

/// Reaction aggregates of one event: for each `(emoji, senders)` key, the
/// number of senders (capped at `u32::MAX`) and whether `own_id` is one.
pub fn aggregate_reactions(reactions: &Vec<(String, Vec<String>)>, own_id: &str) -> (r: Vec<
    Reaction,
>)
    ensures
        r@.len() == reactions@.len(),
        forall|k: int|
            0 <= k < r@.len() ==> {
                &&& (#[trigger] r@[k]).emoji == reactions@[k].0
                &&& r@[k].count == (if reactions@[k].1@.len() > u32::MAX {
                    u32::MAX as int
                } else {
                    reactions@[k].1@.len() as int
                })
                &&& r@[k].me == sent_by(reactions@[k].1@, own_id@)
            },
{
    let mut r: Vec<Reaction> = Vec::new();
    let mut k: usize = 0;
    while k < reactions.len()
        invariant
            k <= reactions.len(),
            r@.len() == k,
            forall|j: int|
                0 <= j < k ==> {
                    &&& (#[trigger] r@[j]).emoji == reactions@[j].0
                    &&& r@[j].count == (if reactions@[j].1@.len() > u32::MAX {
                        u32::MAX as int
                    } else {
                        reactions@[j].1@.len() as int
                    })
                    &&& r@[j].me == sent_by(reactions@[j].1@, own_id@)
                },
        decreases reactions.len() - k,
    {
        let senders = &reactions[k].1;
        let n = senders.len();
        let count: u32 = if n > 0xffff_ffff {
            0xffff_ffff
        } else {
            n as u32
        };
        let mut me = false;
        let mut j: usize = 0;
        while j < senders.len()
            invariant
                j <= senders.len(),
                me == exists|q: int| 0 <= q < j && (#[trigger] senders@[q])@ == own_id@,
            decreases senders.len() - j,
        {
            if str_eq(senders[j].as_str(), own_id) {
                me = true;
            }
            j = j + 1;
        }
        r.push(Reaction { emoji: reactions[k].0.clone(), count, me });
        k = k + 1;
    }
    r
}

// ----------------------------------------------------------------------
// Timeline items
// ----------------------------------------------------------------------

/// How a timeline event is identified: a remote event by its event id, a
/// local echo by its transaction id.
#[derive(Debug, Clone, PartialEq, Eq)]
pub enum EventKey {
    Remote(String),
    Local(String),
}

/// Where a local echo stands; remote events have none.
#[derive(Debug, Clone, Copy, PartialEq, Eq, Structural)]
pub enum EchoState {
    NotSentYet,
    SendingFailed,
    Sent,
}

/// The sender's profile, once it has resolved.
#[derive(Debug, Clone, PartialEq, Eq)]
pub struct SenderProfile {
    pub display_name: Option<String>,
    pub avatar: Option<String>,
}

/// A message-like event with what surrounds its body: reactions as
/// `(emoji, senders)`, the event it replies to, and its thread's reply
/// count when it is a thread root.
#[derive(Debug, Clone, PartialEq, Eq)]
pub struct MsgLikeEvent {
    pub kind: MsgLike,
    pub reactions: Vec<(String, Vec<String>)>,
    pub in_reply_to: Option<String>,
    pub thread_replies: Option<u32>,
}

/// What a timeline event holds, as far as rows read it.
#[derive(Debug, Clone, PartialEq, Eq)]
pub enum EventContent {
    MsgLike(MsgLikeEvent),
    Membership { display_name: Option<String>, user_id: String, change: Option<MembershipChange> },
    /// A profile change, with its display-name change `(old, new)` if any.
    Profile(Option<(Option<String>, Option<String>)>),
    /// An event that failed to parse.
    Unparsable,
    CallInvite,
    /// Room state and call notifications, which get no row.
    Hidden,
}

/// One event of a timeline.
#[derive(Debug, Clone, PartialEq, Eq)]
pub struct TimelineEvent {
    pub key: EventKey,
    pub echo: Option<EchoState>,
    pub sender: String,
    pub profile: Option<SenderProfile>,
    pub timestamp_ms: u64,
    pub own: bool,
    pub content: EventContent,
}

/// A timeline's virtual items.
#[derive(Debug, Clone, Copy, PartialEq, Eq, Structural)]
pub enum VirtualItem {
    /// A day divider, at this unix-millisecond time.
    DateDivider(u64),
    ReadMarker,
    TimelineStart,
}

/// One item of a timeline.
#[derive(Debug, Clone, PartialEq, Eq)]
pub enum TimelineItem {
    Event(TimelineEvent),
    Virtual(VirtualItem),
}

/// A row's id: the event id, or `txn-` and the transaction id of an echo.
pub open spec fn row_id_spec(key: EventKey) -> Seq<char> {
    match key {
        EventKey::Remote(e) => e@,
        EventKey::Local(t) => "txn-"@ + t@,
    }
}

/// A row's delivery state: echoes not sent yet are sending, failed ones
/// failed; sent echoes and remote events are sent.
pub open spec fn send_state_spec(echo: Option<EchoState>) -> SendState {
    match echo {
        Some(EchoState::NotSentYet) => SendState::Sending,
        Some(EchoState::SendingFailed) => SendState::Failed,
        _ => SendState::Sent,
    }
}

/// Who a row names: the resolved display name, else the sender's id.
pub open spec fn sender_label(ev: TimelineEvent) -> Seq<char> {
    match ev.profile {
        Some(p) => match p.display_name {
            Some(n) => n@,
            None => ev.sender@,
        },
        None => ev.sender@,
    }
}

/// A row's avatar: the resolved profile's, else none.
pub open spec fn sender_avatar(ev: TimelineEvent) -> Option<Seq<char>> {
    match ev.profile {
        Some(p) => opt_view(p.avatar),
        None => None,
    }
}

/// The number of senders of a reaction, capped at `u32::MAX`.
pub open spec fn reaction_count(senders: Seq<String>) -> u32 {
    if senders.len() > u32::MAX {
        u32::MAX
    } else {
        senders.len() as u32
    }
}

/// The reaction aggregates of an event, seen from `own`.
pub open spec fn aggregate_spec(reactions: Seq<(String, Vec<String>)>, own: Seq<char>) -> Seq<ReactionView> {
    Seq::new(
        reactions.len(),
        |k: int| ReactionView { emoji: reactions[k].0@, count: reaction_count(reactions[k].1@), me: sent_by(reactions[k].1@, own) },
    )
}

/// Whether a message-like event is an emote (its row takes no thread count).
pub open spec fn is_emote(m: MsgLike) -> bool {
    m matches MsgLike::Message { msgtype: MessageType::Emote(_), .. }
}

/// The media content of a message-like event, when it carries one.
pub open spec fn media_of(m: MsgLike) -> Option<MediaContent> {
    match m {
        MsgLike::Message { msgtype: MessageType::Media(c), .. } => Some(c),
        _ => None,
    }
}

/// A row's text and system flag for an event that gets one.
pub open spec fn event_text(ev: TimelineEvent) -> (Seq<char>, bool) {
    match ev.content {
        EventContent::MsgLike(e) => row_text_spec(e.kind, sender_label(ev)),
        EventContent::Membership { display_name, user_id, change } => (
            member_label(opt_view(display_name), user_id@) + " "@ + membership_verb(change),
            true,
        ),
        EventContent::Profile(change) => (
            profile_change_spec(
                sender_label(ev),
                match change {
                    Some((o, n)) => Some((opt_view(o), opt_view(n))),
                    None => None,
                },
            ),
            true,
        ),
        EventContent::Unparsable => ("unable to display this event"@, true),
        EventContent::CallInvite => ("started a call"@, true),
        EventContent::Hidden => (Seq::empty(), false),
    }
}

fn sender_label_exec(ev: &TimelineEvent) -> (r: &String)
    ensures
        r@ == sender_label(*ev),
{
    match &ev.profile {
        Some(p) => match &p.display_name {
            Some(n) => n,
            None => &ev.sender,
        },
        None => &ev.sender,
    }
}

fn row_id(key: &EventKey) -> (r: String)
    ensures
        r@ == row_id_spec(*key),
{
    match key {
        EventKey::Remote(e) => e.clone(),
        EventKey::Local(t) => {
            let mut v: Vec<char> = Vec::new();
            push_str(&mut v, "txn-");
            push_str(&mut v, t.as_str());
            string_from_chars(v.as_slice())
        },
    }
}

/// The row of a timeline event, `None` for events that get none. Rows name
/// the sender by display name, carry the send state, and for message-like
/// events their reactions, reply, attachment, thread count (not for emotes)
/// and the sender's avatar.
pub fn map_event(ev: &TimelineEvent, own_id: &str) -> (r: Option<Message>)
    ensures
        ev.content is Hidden <==> r is None,
        r matches Some(m) ==> {
            &&& m.id@ == row_id_spec(ev.key)
            &&& m.from@ == sender_label(*ev)
            &&& m.time@ == format_hhmm_spec(ev.timestamp_ms as nat)
            &&& m.mine == ev.own
            &&& m.send_state == send_state_spec(ev.echo)
            &&& (m.text@, m.system) == event_text(*ev)
            &&& m.read_by@.len() == 0
            &&& match ev.content {
                EventContent::MsgLike(e) => {
                    &&& reactions_view(m.reactions@) == aggregate_spec(e.reactions@, own_id@)
                    &&& opt_view(m.reply_to) == opt_view(e.in_reply_to)
                    &&& m.thread_count == if is_emote(e.kind) { 0 } else {
                        match e.thread_replies {
                            Some(n) => n,
                            None => 0,
                        }
                    }
                    &&& match media_of(e.kind) {
                        Some(c) => m.attachment matches Some(a) && media_attachment(c, a),
                        None => m.attachment is None,
                    }
                    &&& opt_view(m.avatar) == sender_avatar(*ev)
                },
                _ => {
                    &&& m.reactions@.len() == 0
                    &&& m.reply_to is None
                    &&& m.thread_count == 0
                    &&& m.attachment is None
                    &&& m.avatar is None
                },
            }
        },
{
    if let EventContent::Hidden = ev.content {
        return None;
    }
    let id = row_id(&ev.key);
    let from = sender_label_exec(ev);
    let time = format_hhmm(ev.timestamp_ms);
    let (text, system) = match &ev.content {
        EventContent::MsgLike(e) => row_text(&e.kind, from.as_str()),
        EventContent::Membership { display_name, user_id, change } => {
            let name = match display_name {
                Some(n) => Some(n.as_str()),
                None => None,
            };
            (membership_text(name, user_id.as_str(), *change), true)
        },
        EventContent::Profile(change) => {
            let c = match change {
                Some((o, n)) => Some((
                    match o {
                        Some(x) => Some(x.as_str()),
                        None => None,
                    },
                    match n {
                        Some(x) => Some(x.as_str()),
                        None => None,
                    },
                )),
                None => None,
            };
            (profile_change_text(from.as_str(), c), true)
        },
        EventContent::Unparsable => (owned("unable to display this event"), true),
        EventContent::CallInvite => (owned("started a call"), true),
        EventContent::Hidden => (String::new(), false),
    };
    let mut m = Message::new(id.as_str(), from.as_str(), time.as_str(), text.as_str());
    m.mine = ev.own;
    m.system = system;
    m.send_state = match ev.echo {
        Some(EchoState::NotSentYet) => SendState::Sending,
        Some(EchoState::SendingFailed) => SendState::Failed,
        _ => SendState::Sent,
    };
    if let EventContent::MsgLike(e) = &ev.content {
        let reactions = aggregate_reactions(&e.reactions, own_id);
        assert(reactions_view(reactions@) =~= aggregate_spec(e.reactions@, own_id@));
        m.reactions = reactions;
        m.reply_to = e.in_reply_to.duplicate();
        let emote = match &e.kind {
            MsgLike::Message { msgtype: MessageType::Emote(_), .. } => true,
            _ => false,
        };
        if !emote {
            m.thread_count = match e.thread_replies {
                Some(n) => n,
                None => 0,
            };
        }
        if let MsgLike::Message { msgtype: MessageType::Media(c), .. } = &e.kind {
            m.attachment = Some(map_media(c).attachment);
        }
        m.avatar = match &ev.profile {
            Some(p) => p.avatar.duplicate(),
            None => None,
        };
    }
    Some(m)
}

/// The row of a virtual item: a day divider reads `— YYYY-MM-DD —`; read
/// markers and the timeline start get none.
pub fn map_virtual(item: VirtualItem) -> (r: Option<Message>)
    ensures
        match item {
            VirtualItem::DateDivider(ms) => r matches Some(m) && m@ == MessageView {
                id: "divider-"@ + dec(ms as nat),
                from: Seq::empty(),
                time: Seq::empty(),
                mine: false,
                system: true,
                text: "\u{2014} "@ + format_ymd_spec(ms as nat) + " \u{2014}"@,
                reply_to: None,
                reactions: Seq::empty(),
                thread_count: 0,
                attachment: None,
                read_by: Seq::empty(),
                send_state: SendState::Sent,
                avatar: None,
            },
            _ => r is None,
        },
{
    match item {
        VirtualItem::DateDivider(ms) => {
            let mut id: Vec<char> = Vec::new();
            push_str(&mut id, "divider-");
            push_str(&mut id, dec_string(ms).as_str());
            let mut text: Vec<char> = Vec::new();
            push_str(&mut text, "\u{2014} ");
            push_str(&mut text, format_ymd(ms).as_str());
            push_str(&mut text, " \u{2014}");
            let mut m = Message::new(string_from_chars(id.as_slice()).as_str(), "", "", string_from_chars(text.as_slice()).as_str());
            m.system = true;
            proof {
                reveal_strlit("");
            }
            assert(m@.reactions =~= Seq::<ReactionView>::empty());
            assert(m@.read_by =~= Seq::<Seq<char>>::empty());
            assert(m@.from =~= Seq::<char>::empty());
            assert(m@.time =~= Seq::<char>::empty());
            assert(m@.id =~= "divider-"@ + dec(ms as nat));
            assert(m@.text =~= "\u{2014} "@ + format_ymd_spec(ms as nat) + " \u{2014}"@);
            Some(m)
        },
        _ => None,
    }
}

/// The row of a timeline item.
pub fn map_item(item: &TimelineItem, own_id: &str) -> (r: Option<Message>)
    ensures
        match *item {
            TimelineItem::Event(ev) => (r is None <==> ev.content is Hidden),
            TimelineItem::Virtual(v) => (r is None <==> !(v is DateDivider)),
        },
{
    match item {
        TimelineItem::Event(ev) => map_event(ev, own_id),
        TimelineItem::Virtual(v) => map_virtual(*v),
    }
}

/// The row of a thread-panel item: message-like events the panel shows,
/// named by display name; virtual items and other events get none.
pub fn thread_reply_row(item: &TimelineItem) -> (r: Option<ThreadReply>)
    ensures
        match *item {
            TimelineItem::Event(ev) => match ev.content {
                EventContent::MsgLike(e) => match thread_row_text_spec(e.kind) {
                    Some(t) => r matches Some(row) && row.text@ == t && row.from@ == sender_label(ev)
                        && row.time@ == format_hhmm_spec(ev.timestamp_ms as nat) && row.mine == ev.own,
                    None => r is None,
                },
                _ => r is None,
            },
            TimelineItem::Virtual(_) => r is None,
        },
{
    let ev = match item {
        TimelineItem::Event(ev) => ev,
        TimelineItem::Virtual(_) => {
            return None;
        },
    };
    let e = match &ev.content {
        EventContent::MsgLike(e) => e,
        _ => {
            return None;
        },
    };
    let text = match thread_row_text(&e.kind) {
        Some(t) => t,
        None => {
            return None;
        },
    };
    Some(ThreadReply { from: sender_label_exec(ev).clone(), time: format_hhmm(ev.timestamp_ms), mine: ev.own, text })
}

// ----------------------------------------------------------------------
// Open-timeline registry
// ----------------------------------------------------------------------

/// Reference counts of open timelines (or threads), keyed by id: the
/// first open builds the timeline, the last close disposes it.
pub struct RefCounts {
    entries: Vec<(String, usize)>,
}

impl RefCounts {
    /// Open ids and their reference counts.
    pub closed spec fn view(&self) -> Map<Seq<char>, nat> {
        Map::new(
            |k: Seq<char>| exists|i: int| 0 <= i < self.entries@.len() && (#[trigger] self.entries@[i]).0@ == k,
            |k: Seq<char>| {
                let i = choose|i: int| 0 <= i < self.entries@.len() && (#[trigger] self.entries@[i]).0@ == k;
                self.entries@[i].1 as nat
            },
        )
    }

    /// Ids are distinct and every count is at least one.
    pub closed spec fn wf(&self) -> bool {
        &&& forall|i: int, j: int|
            0 <= i < j < self.entries@.len() ==> (#[trigger] self.entries@[i]).0@ != (
            #[trigger] self.entries@[j]).0@
        &&& forall|i: int| 0 <= i < self.entries@.len() ==> (#[trigger] self.entries@[i]).1 >= 1
    }

    proof fn lemma_view_at(&self, i: int)
        requires
            self.wf(),
            0 <= i < self.entries@.len(),
        ensures
            self@.dom().contains(self.entries@[i].0@),
            self@[self.entries@[i].0@] == self.entries@[i].1 as nat,
    {
        let k = self.entries@[i].0@;
        assert(self@.dom().contains(k));
        let j = choose|j: int| 0 <= j < self.entries@.len() && (#[trigger] self.entries@[j]).0@ == k;
        if j != i {
            if j < i {
                assert(self.entries@[j].0@ != self.entries@[i].0@);
            } else {
                assert(self.entries@[i].0@ != self.entries@[j].0@);
            }
        }
    }

    /// No timeline open.
    pub fn new() -> (r: RefCounts)
        ensures
            r.wf(),
            r@ == Map::<Seq<char>, nat>::empty(),
    {
        let r = RefCounts { entries: Vec::new() };
        assert(r@ =~= Map::<Seq<char>, nat>::empty());
        r
    }

    /// How many ids are open.
    pub fn len(&self) -> (n: usize)
        requires
            self.wf(),
        ensures
            n == self@.dom().len(),
    {
        proof {
            self.lemma_dom_len();
        }
        self.entries.len()
    }

    proof fn lemma_dom_len(&self)
        requires
            self.wf(),
        ensures
            self@.dom().len() == self.entries@.len(),
            self@.dom() == self.entries@.map_values(|e: (String, usize)| e.0@).to_set(),
        decreases self.entries@.len(),
    {
        let ks = self.entries@.map_values(|e: (String, usize)| e.0@);
        assert(self@.dom() =~= ks.to_set()) by {
            assert forall|k: Seq<char>| self@.dom().contains(k) implies ks.to_set().contains(k) by {
                let i = choose|i: int| 0 <= i < self.entries@.len() && (#[trigger] self.entries@[i]).0@ == k;
                assert(ks[i] == k);
            }
            assert forall|k: Seq<char>| ks.to_set().contains(k) implies self@.dom().contains(k) by {
                let i = choose|i: int| 0 <= i < ks.len() && ks[i] == k;
                assert(self.entries@[i].0@ == k);
            }
        }
        assert(ks.no_duplicates()) by {
            assert forall|i: int, j: int| 0 <= i < ks.len() && 0 <= j < ks.len() && i != j implies ks[i] != ks[j] by {
                if i < j {
                    assert(self.entries@[i].0@ != self.entries@[j].0@);
                } else {
                    assert(self.entries@[j].0@ != self.entries@[i].0@);
                }
            }
        }
        ks.unique_seq_to_set();
    }

    /// Position of `id`, if open.
    fn find(&self, id: &str) -> (r: Option<usize>)
        requires
            self.wf(),
        ensures
            r matches Some(i) ==> i < self.entries@.len() && self.entries@[i as int].0@ == id@,
            r is None ==> !self@.dom().contains(id@),
    {
        let mut i: usize = 0;
        while i < self.entries.len()
            invariant
                i <= self.entries.len(),
                forall|j: int| 0 <= j < i ==> (#[trigger] self.entries@[j]).0@ != id@,
            decreases self.entries.len() - i,
        {
            if str_eq(self.entries[i].0.as_str(), id) {
                return Some(i);
            }
            i = i + 1;
        }
        None
    }

    /// Whether `id` is open.
    pub fn contains(&self, id: &str) -> (b: bool)
        requires
            self.wf(),
        ensures
            b == self@.dom().contains(id@),
    {
        match self.find(id) {
            Some(i) => {
                proof {
                    self.lemma_view_at(i as int);
                }
                true
            },
            None => false,
        }
    }

    /// Take one more reference to an already-open `id`; `false` (nothing
    /// changed) when it is not open, in which case the caller builds it and
    /// then calls [`Self::insert_opened`].
    pub fn retain(&mut self, id: &str) -> (opened_already: bool)
        requires
            old(self).wf(),
            old(self)@.dom().contains(id@) ==> old(self)@[id@] < usize::MAX,
        ensures
            final(self).wf(),
            opened_already == old(self)@.dom().contains(id@),
            opened_already ==> final(self)@ == old(self)@.insert(id@, old(self)@[id@] + 1),
            opened_already ==> final(self)@ == opened(old(self)@, id@),
            !opened_already ==> final(self)@ == old(self)@,
    {
        match self.find(id) {
            Some(i) => {
                proof {
                    self.lemma_view_at(i as int);
                }
                let ghost before = self@;
                let n = self.entries[i].1;
                let key = self.entries[i].0.clone();
                self.entries.set(i, (key, n + 1));
                proof {
                    assert(self.wf()) by {
                        assert forall|a: int, b: int| 0 <= a < b < self.entries@.len() implies (
                        #[trigger] self.entries@[a]).0@ != (#[trigger] self.entries@[b]).0@ by {
                            assert(self.entries@[a].0@ == old(self).entries@[a].0@);
                            assert(self.entries@[b].0@ == old(self).entries@[b].0@);
                        }
                    }
                    assert forall|k: Seq<char>| #[trigger] self@.dom().contains(k) == before.insert(id@, before[id@] + 1).dom().contains(k) by {
                        if self@.dom().contains(k) {
                            let j = choose|j: int| 0 <= j < self.entries@.len() && (#[trigger] self.entries@[j]).0@ == k;
                            assert(old(self).entries@[j].0@ == k);
                        }
                        if before.dom().contains(k) {
                            let j = choose|j: int| 0 <= j < old(self).entries@.len() && (#[trigger] old(self).entries@[j]).0@ == k;
                            assert(self.entries@[j].0@ == k);
                        }
                    }
                    assert forall|k: Seq<char>| #[trigger] self@.dom().contains(k) implies self@[k] == before.insert(id@, before[id@] + 1)[k] by {
                        let j = choose|j: int| 0 <= j < self.entries@.len() && (#[trigger] self.entries@[j]).0@ == k;
                        self.lemma_view_at(j);
                        old(self).lemma_view_at(j);
                    }
                    assert(self@ =~= before.insert(id@, before[id@] + 1));
                }
                true
            },
            None => false,
        }
    }

    /// Record a freshly built `id` with one reference.
    pub fn insert_opened(&mut self, id: &str)
        requires
            old(self).wf(),
            !old(self)@.dom().contains(id@),
        ensures
            final(self).wf(),
            final(self)@ == old(self)@.insert(id@, 1),
            final(self)@ == opened(old(self)@, id@),
    {
        let ghost before = self@;
        self.entries.push((owned(id), 1));
        proof {
            let n = self.entries@.len() - 1;
            assert(self.wf()) by {
                assert forall|a: int, b: int| 0 <= a < b < self.entries@.len() implies (
                #[trigger] self.entries@[a]).0@ != (#[trigger] self.entries@[b]).0@ by {
                    if b == n {
                        assert(old(self).entries@[a] == self.entries@[a]);
                        if old(self).entries@[a].0@ == id@ {
                            assert(before.dom().contains(id@));
                        }
                    }
                }
            }
            assert forall|k: Seq<char>| #[trigger] self@.dom().contains(k) == before.insert(id@, 1).dom().contains(k) by {
                if self@.dom().contains(k) {
                    let j = choose|j: int| 0 <= j < self.entries@.len() && (#[trigger] self.entries@[j]).0@ == k;
                    if j < n {
                        assert(old(self).entries@[j].0@ == k);
                    }
                }
                if before.dom().contains(k) {
                    let j = choose|j: int| 0 <= j < old(self).entries@.len() && (#[trigger] old(self).entries@[j]).0@ == k;
                    assert(self.entries@[j].0@ == k);
                }
                if k == id@ {
                    assert(self.entries@[n].0@ == k);
                }
            }
            assert forall|k: Seq<char>| #[trigger] self@.dom().contains(k) implies self@[k] == before.insert(id@, 1)[k] by {
                let j = choose|j: int| 0 <= j < self.entries@.len() && (#[trigger] self.entries@[j]).0@ == k;
                self.lemma_view_at(j);
                if j < n {
                    old(self).lemma_view_at(j);
                }
            }
            assert(self@ =~= before.insert(id@, 1));
        }
    }

    /// Release one reference to `id`; `true` when that was the last one and
    /// the id is no longer open (the caller disposes its task). Releasing
    /// an id that is not open changes nothing.
    pub fn release(&mut self, id: &str) -> (disposed: bool)
        requires
            old(self).wf(),
        ensures
            final(self).wf(),
            !old(self)@.dom().contains(id@) ==> !disposed && final(self)@ == old(self)@,
            old(self)@.dom().contains(id@) && old(self)@[id@] == 1 ==> disposed && final(self)@
                == old(self)@.remove(id@),
            old(self)@.dom().contains(id@) && old(self)@[id@] > 1 ==> !disposed && final(self)@
                == old(self)@.insert(id@, (old(self)@[id@] - 1) as nat),
            final(self)@ == closed(old(self)@, id@),
    {
        match self.find(id) {
            None => false,
            Some(i) => {
                proof {
                    self.lemma_view_at(i as int);
                }
                let ghost before = self@;
                let n = self.entries[i].1;
                if n > 1 {
                    let key = self.entries[i].0.clone();
                    self.entries.set(i, (key, n - 1));
                    proof {
                        assert(self.wf()) by {
                            assert forall|a: int, b: int| 0 <= a < b < self.entries@.len() implies (
                            #[trigger] self.entries@[a]).0@ != (#[trigger] self.entries@[b]).0@ by {
                                assert(self.entries@[a].0@ == old(self).entries@[a].0@);
                                assert(self.entries@[b].0@ == old(self).entries@[b].0@);
                            }
                        }
                        assert forall|k: Seq<char>| #[trigger] self@.dom().contains(k) == before.dom().contains(k) by {
                            if self@.dom().contains(k) {
                                let j = choose|j: int| 0 <= j < self.entries@.len() && (#[trigger] self.entries@[j]).0@ == k;
                                assert(old(self).entries@[j].0@ == k);
                            }
                            if before.dom().contains(k) {
                                let j = choose|j: int| 0 <= j < old(self).entries@.len() && (#[trigger] old(self).entries@[j]).0@ == k;
                                assert(self.entries@[j].0@ == k);
                            }
                        }
                        assert forall|k: Seq<char>| #[trigger] self@.dom().contains(k) implies self@[k] == before.insert(id@, (before[id@] - 1) as nat)[k] by {
                            let j = choose|j: int| 0 <= j < self.entries@.len() && (#[trigger] self.entries@[j]).0@ == k;
                            self.lemma_view_at(j);
                            old(self).lemma_view_at(j);
                        }
                        assert(self@ =~= before.insert(id@, (before[id@] - 1) as nat));
                    }
                    false
                } else {
                    self.entries.remove(i);
                    proof {
                        let o = old(self).entries@;
                        assert(self.entries@ =~= o.subrange(0, i as int) + o.subrange(i + 1, o.len() as int));
                        assert forall|j: int| 0 <= j < self.entries@.len() implies #[trigger] self.entries@[j] == (if j < i { o[j] } else { o[j + 1] }) by {}
                        assert(self.wf()) by {
                            assert forall|a: int, b: int| 0 <= a < b < self.entries@.len() implies (
                            #[trigger] self.entries@[a]).0@ != (#[trigger] self.entries@[b]).0@ by {
                                let a2 = if a < i { a } else { a + 1 };
                                let b2 = if b < i { b } else { b + 1 };
                                assert(self.entries@[a] == o[a2]);
                                assert(self.entries@[b] == o[b2]);
                            }
                        }
                        assert forall|k: Seq<char>| #[trigger] self@.dom().contains(k) == before.remove(id@).dom().contains(k) by {
                            if self@.dom().contains(k) {
                                let j = choose|j: int| 0 <= j < self.entries@.len() && (#[trigger] self.entries@[j]).0@ == k;
                                let j2 = if j < i { j } else { j + 1 };
                                assert(o[j2].0@ == k);
                                assert(j2 != i);
                                if k == id@ {
                                    if j2 < i {
                                        assert(o[j2].0@ != o[i as int].0@);
                                    } else {
                                        assert(o[i as int].0@ != o[j2].0@);
                                    }
                                }
                            }
                            if before.remove(id@).dom().contains(k) {
                                let j = choose|j: int| 0 <= j < o.len() && (#[trigger] o[j]).0@ == k;
                                assert(j != i);
                                let j2 = if j < i { j } else { j - 1 };
                                assert(self.entries@[j2].0@ == k);
                            }
                        }
                        assert forall|k: Seq<char>| #[trigger] self@.dom().contains(k) implies self@[k] == before.remove(id@)[k] by {
                            let j = choose|j: int| 0 <= j < self.entries@.len() && (#[trigger] self.entries@[j]).0@ == k;
                            let j2 = if j < i { j } else { j + 1 };
                            self.lemma_view_at(j);
                            old(self).lemma_view_at(j2);
                        }
                        assert(self@ =~= before.remove(id@));
                    }
                    true
                }
            },
        }
    }

    /// Close everything (logout): the ids that were open, for their tasks
    /// to be aborted.
    pub fn clear(&mut self) -> (ids: Vec<String>)
        requires
            old(self).wf(),
        ensures
            final(self).wf(),
            final(self)@ == Map::<Seq<char>, nat>::empty(),
            ids@.map_values(|s: String| s@).to_set() == old(self)@.dom(),
    {
        let mut ids: Vec<String> = Vec::new();
        let mut i: usize = 0;
        while i < self.entries.len()
            invariant
                i <= self.entries.len(),
                ids@.len() == i,
                forall|j: int| 0 <= j < i ==> (#[trigger] ids@[j]) == self.entries@[j].0,
            decreases self.entries.len() - i,
        {
            ids.push(self.entries[i].0.clone());
            i = i + 1;
        }
        proof {
            self.lemma_dom_len();
            assert(ids@.map_values(|s: String| s@) =~= self.entries@.map_values(|e: (String, usize)| e.0@));
        }
        self.entries = Vec::new();
        assert(self@ =~= Map::<Seq<char>, nat>::empty());
        ids
    }
}

/// Opening an already-open id and closing it again leaves the counts as
/// they were; so does opening a new one and closing it.
pub proof fn law_open_close_balances(m: Map<Seq<char>, nat>, id: Seq<char>)
    ensures
        m.dom().contains(id) && m[id] >= 1 ==> m.insert(id, m[id] + 1).insert(id, (m.insert(id, m[id] + 1)[id] - 1) as nat) == m,
        !m.dom().contains(id) ==> m.insert(id, 1).remove(id) == m,
{
    if m.dom().contains(id) {
        assert(m.insert(id, m[id] + 1).insert(id, (m.insert(id, m[id] + 1)[id] - 1) as nat) =~= m);
    } else {
        assert(m.insert(id, 1).remove(id) =~= m);
    }
}

/// The counts after one open of `id`: one more reference when it is open,
/// else its first ([`RefCounts::retain`], then [`RefCounts::insert_opened`]).
pub open spec fn opened(m: Map<Seq<char>, nat>, id: Seq<char>) -> Map<Seq<char>, nat> {
    if m.dom().contains(id) {
        m.insert(id, m[id] + 1)
    } else {
        m.insert(id, 1)
    }
}

/// The counts after one close of `id` ([`RefCounts::release`]): one
/// reference fewer, the id gone with its last one; closing an id that is
/// not open changes nothing.
pub open spec fn closed(m: Map<Seq<char>, nat>, id: Seq<char>) -> Map<Seq<char>, nat> {
    if !m.dom().contains(id) {
        m
    } else if m[id] <= 1 {
        m.remove(id)
    } else {
        m.insert(id, (m[id] - 1) as nat)
    }
}

pub open spec fn opened_times(m: Map<Seq<char>, nat>, id: Seq<char>, n: nat) -> Map<Seq<char>, nat>
    decreases n,
{
    if n == 0 {
        m
    } else {
        opened(opened_times(m, id, (n - 1) as nat), id)
    }
}

pub open spec fn closed_times(m: Map<Seq<char>, nat>, id: Seq<char>, k: nat) -> Map<Seq<char>, nat>
    decreases k,
{
    if k == 0 {
        m
    } else {
        closed(closed_times(m, id, (k - 1) as nat), id)
    }
}

/// References held on `id`: none when it is not open.
pub open spec fn refs(m: Map<Seq<char>, nat>, id: Seq<char>) -> nat {
    if m.dom().contains(id) {
        m[id]
    } else {
        0
    }
}

proof fn lemma_opened_times(m: Map<Seq<char>, nat>, id: Seq<char>, n: nat)
    requires
        m.dom().contains(id) ==> m[id] >= 1,
    ensures
        opened_times(m, id, n).remove(id) == m.remove(id),
        refs(opened_times(m, id, n), id) == refs(m, id) + n,
        opened_times(m, id, n).dom().contains(id) ==> opened_times(m, id, n)[id] >= 1,
    decreases n,
{
    if n > 0 {
        lemma_opened_times(m, id, (n - 1) as nat);
        let p = opened_times(m, id, (n - 1) as nat);
        assert(opened(p, id).remove(id) =~= p.remove(id));
    }
}

proof fn lemma_closed_times(m: Map<Seq<char>, nat>, id: Seq<char>, k: nat)
    requires
        m.dom().contains(id) ==> m[id] >= 1,
    ensures
        closed_times(m, id, k).remove(id) == m.remove(id),
        refs(closed_times(m, id, k), id) == if k < refs(m, id) { refs(m, id) - k } else { 0 },
        closed_times(m, id, k).dom().contains(id) ==> closed_times(m, id, k)[id] >= 1,
    decreases k,
{
    if k > 0 {
        lemma_closed_times(m, id, (k - 1) as nat);
        let p = closed_times(m, id, (k - 1) as nat);
        assert(closed(p, id).remove(id) =~= p.remove(id));
    }
}

/// Opening an id `n` times and closing it `k` times leaves it open with
/// `n - k` more references than it had while `k` stays below all it holds,
/// and closed once `k` reaches them; extra closes change nothing, and no
/// other id is touched.
pub proof fn law_opens_and_closes_count(m: Map<Seq<char>, nat>, id: Seq<char>, n: nat, k: nat)
    requires
        m.dom().contains(id) ==> m[id] >= 1,
    ensures
        closed_times(opened_times(m, id, n), id, k).remove(id) == m.remove(id),
        k < refs(m, id) + n ==> closed_times(opened_times(m, id, n), id, k).dom().contains(id)
            && closed_times(opened_times(m, id, n), id, k)[id] == refs(m, id) + n - k,
        k >= refs(m, id) + n ==> !closed_times(opened_times(m, id, n), id, k).dom().contains(id),
{
    lemma_opened_times(m, id, n);
    lemma_closed_times(opened_times(m, id, n), id, k);
}

// ----------------------------------------------------------------------
// Read receipts
// ----------------------------------------------------------------------

/// The event a read receipt was last sent for, and when (milliseconds on
/// a monotonic clock).
#[derive(Debug, Clone, PartialEq, Eq)]
pub struct ReceiptState {
    pub last_event: String,
    pub last_sent_ms: u64,
}

/// What `mark_read` does.
#[derive(Debug, Clone, PartialEq, Eq)]
pub enum ReceiptDecision {
    /// Nothing to send: no remote event yet, or no advance.
    Skip,
    /// Too soon after the last send: schedule a deferred send in a second.
    Defer,
    /// Send a receipt for this event now.
    Send(String),
}

/// Minimum spacing between two receipts of one room.
pub const RECEIPT_THROTTLE_MS: u64 = 1000;

/// Per-room read-receipt throttle: at most one receipt a second, and only
/// when the latest remote event advances past the last one receipted.
pub struct ReceiptThrottle {
    pub last: Option<ReceiptState>,
}

impl ReceiptThrottle {
    pub fn new() -> (r: ReceiptThrottle)
        ensures
            r.last is None,
    {
        ReceiptThrottle { last: None }
    }

    /// `mark_read` with `latest` the latest remote event id and `now_ms`
    /// the current time. A `Send` records `(latest, now_ms)`; `Skip` and
    /// `Defer` change nothing.
    pub fn mark_read(&mut self, latest: Option<String>, now_ms: u64) -> (d: ReceiptDecision)
        ensures
            latest is None ==> d == ReceiptDecision::Skip && final(self).last == old(self).last,
            latest matches Some(e) ==> match old(self).last {
                Some(r) => if r.last_event@ == e@ {
                    d == ReceiptDecision::Skip && final(self).last == old(self).last
                } else if (if now_ms >= r.last_sent_ms {
                    now_ms - r.last_sent_ms
                } else {
                    0
                }) < RECEIPT_THROTTLE_MS {
                    d == ReceiptDecision::Defer && final(self).last == old(self).last
                } else {
                    d == ReceiptDecision::Send(e) && final(self).last == Some(
                        ReceiptState { last_event: e, last_sent_ms: now_ms },
                    )
                },
                None => d == ReceiptDecision::Send(e) && final(self).last == Some(
                    ReceiptState { last_event: e, last_sent_ms: now_ms },
                ),
            },
    {
        let Some(event) = latest else {
            return ReceiptDecision::Skip;
        };
        match &self.last {
            Some(r) => {
                if str_eq(r.last_event.as_str(), event.as_str()) {
                    return ReceiptDecision::Skip;
                }
                let elapsed = if now_ms >= r.last_sent_ms {
                    now_ms - r.last_sent_ms
                } else {
                    0
                };
                if elapsed < RECEIPT_THROTTLE_MS {
                    return ReceiptDecision::Defer;
                }
            },
            None => {},
        }
        let e2 = event.clone();
        self.last = Some(ReceiptState { last_event: event, last_sent_ms: now_ms });
        ReceiptDecision::Send(e2)
    }

    /// The deferred send, a second later: receipts the then-latest remote
    /// event unless it was already receipted.
    pub fn deferred(&mut self, latest: Option<String>, now_ms: u64) -> (send: Option<String>)
        ensures
            latest is None ==> send is None && final(self).last == old(self).last,
            latest matches Some(e) ==> if old(self).last matches Some(r) && r.last_event@ == e@ {
                send is None && final(self).last == old(self).last
            } else {
                send == Some(e) && final(self).last == Some(
                    ReceiptState { last_event: e, last_sent_ms: now_ms },
                )
            },
    {
        let Some(event) = latest else {
            return None;
        };
        if let Some(r) = &self.last {
            if str_eq(r.last_event.as_str(), event.as_str()) {
                return None;
            }
        }
        let e2 = event.clone();
        self.last = Some(ReceiptState { last_event: event, last_sent_ms: now_ms });
        Some(e2)
    }
}

/// The last of `items` that carries a remote event id (`None` for local
/// echoes and virtual items).
pub open spec fn latest_remote_spec(items: Seq<Option<String>>) -> Option<String>
    decreases items.len(),
{
    if items.len() == 0 {
        None
    } else if items.last() is Some {
        items.last()
    } else {
        latest_remote_spec(items.drop_last())
    }
}

/// The latest remote event id of a timeline, given each item's event id.
pub fn latest_remote_event_id(items: &Vec<Option<String>>) -> (r: Option<String>)
    ensures
        r == latest_remote_spec(items@),
{
    let mut j = items.len();
    assert(items@.subrange(0, j as int) =~= items@);
    while j > 0
        invariant
            j <= items.len(),
            latest_remote_spec(items@) == latest_remote_spec(items@.subrange(0, j as int)),
        decreases j,
    {
        match &items[j - 1] {
            Some(id) => {
                return Some(id.clone());
            },
            None => {},
        }
        assert(items@.subrange(0, j as int).drop_last() =~= items@.subrange(0, j - 1));
        j = j - 1;
    }
    None
}

// ----------------------------------------------------------------------
// Send handles
// ----------------------------------------------------------------------

/// The local creation time of the echo with transaction id `txn`: the first
/// item whose transaction id is `txn` and that has a creation time. Items
/// are `(transaction id, local creation time)`.
pub open spec fn created_at_spec(items: Seq<(Option<String>, Option<u64>)>, txn: Seq<char>) -> Option<u64>
    decreases items.len(),
{
    if items.len() == 0 {
        None
    } else if (items[0].0 matches Some(t) && t@ == txn) && items[0].1 is Some {
        items[0].1
    } else {
        created_at_spec(items.drop_first(), txn)
    }
}

/// Creation time of the pending echo with transaction id `txn`.
pub fn created_at_of(items: &Vec<(Option<String>, Option<u64>)>, txn: &str) -> (r: Option<u64>)
    ensures
        r == created_at_spec(items@, txn@),
{
    let mut i: usize = 0;
    assert(items@.subrange(0, items.len() as int) =~= items@);
    while i < items.len()
        invariant
            i <= items.len(),
            created_at_spec(items@, txn@) == created_at_spec(items@.subrange(i as int, items.len() as int), txn@),
        decreases items.len() - i,
    {
        let ghost rest = items@.subrange(i as int, items.len() as int);
        let hit = match &items[i].0 {
            Some(t) => str_eq(t.as_str(), txn),
            None => false,
        };
        if hit && items[i].1.is_some() {
            return items[i].1;
        }
        assert(rest.drop_first() =~= items@.subrange(i + 1, items.len() as int));
        i = i + 1;
    }
    None
}

/// The index of the one send handle created at `created_at`; `None` when
/// none or several were (two sends in the same millisecond are ambiguous).
pub fn unique_handle(handles: &Vec<u64>, created_at: u64) -> (r: Option<usize>)
    ensures
        r matches Some(i) ==> i < handles@.len() && handles@[i as int] == created_at && forall|j: int|
            0 <= j < handles@.len() && j != i ==> handles@[j] != created_at,
        r is None ==> !(exists|i: int| 0 <= i < handles@.len() && handles@[i] == created_at
            && forall|j: int| 0 <= j < handles@.len() && j != i ==> handles@[j] != created_at),
{
    let mut found: Option<usize> = None;
    let mut i: usize = 0;
    while i < handles.len()
        invariant
            i <= handles.len(),
            found matches Some(f) ==> f < i && handles@[f as int] == created_at && forall|j: int|
                0 <= j < i && j != f ==> handles@[j] != created_at,
            found is None ==> forall|j: int| 0 <= j < i ==> handles@[j] != created_at,
        decreases handles.len() - i,
    {
        if handles[i] == created_at {
            if found.is_some() {
                let ghost f = found->0;
                assert(handles@[f as int] == created_at);
                return None;
            }
            found = Some(i);
        }
        i = i + 1;
    }
    found
}

/// Drops the handles whose echo is no longer pending (not among `pending`
/// creation times), keeping the others in order.
pub fn prune_handles(handles: &Vec<u64>, pending: &Vec<u64>) -> (kept: Vec<u64>)
    ensures
        kept@ == handles@.filter(|h: u64| pending@.contains(h)),
{
    let mut kept: Vec<u64> = Vec::new();
    let mut i: usize = 0;
    while i < handles.len()
        invariant
            i <= handles.len(),
            kept@ == handles@.subrange(0, i as int).filter(|h: u64| pending@.contains(h)),
        decreases handles.len() - i,
    {
        let h = handles[i];
        let mut present = false;
        let mut j: usize = 0;
        while j < pending.len()
            invariant
                j <= pending.len(),
                present == exists|q: int| 0 <= q < j && pending@[q] == h,
            decreases pending.len() - j,
        {
            if pending[j] == h {
                present = true;
            }
            j = j + 1;
        }
        proof {
            reveal_with_fuel(Seq::filter, 1);
            assert(handles@.subrange(0, i + 1).drop_last() =~= handles@.subrange(0, i as int));
        }
        if present {
            kept.push(h);
        }
        i = i + 1;
    }
    assert(handles@.subrange(0, handles.len() as int) =~= handles@);
    kept
}


/// A membership row reads the member, then the fixed phrase of its change
/// (a kick reads `{who} was kicked`, a ban `{who} was banned`, and so on),
/// and rows for two different changes never read alike.
pub proof fn law_membership_rows_name_their_change(
    display_name: Option<Seq<char>>,
    user_id: Seq<char>,
    a: MembershipChange,
    b: MembershipChange,
)
    ensures
        membership_verb(Some(MembershipChange::Joined)) == "joined the room"@,
        membership_verb(Some(MembershipChange::Left)) == "left the room"@,
        membership_verb(Some(MembershipChange::Invited)) == "was invited"@,
        membership_verb(Some(MembershipChange::InvitationAccepted)) == "accepted the invite"@,
        membership_verb(Some(MembershipChange::Kicked)) == "was kicked"@,
        membership_verb(Some(MembershipChange::Banned)) == "was banned"@,
        membership_verb(Some(MembershipChange::Unbanned)) == "was unbanned"@,
        membership_verb(Some(MembershipChange::Knocked)) == "knocked"@,
        membership_verb(Some(MembershipChange::KnockAccepted)) == "knock accepted"@,
        membership_verb(Some(MembershipChange::KnockDenied)) == "knock denied"@,
        membership_verb(Some(MembershipChange::KnockRetracted)) == "knock retracted"@,
        membership_verb(Some(MembershipChange::InvitationRejected)) == "declined the invite"@,
        membership_verb(Some(MembershipChange::InvitationRevoked)) == "invite revoked"@,
        membership_verb(Some(MembershipChange::KickedAndBanned)) == "was kicked and banned"@,
        membership_verb(Some(MembershipChange::Other)) == "changed membership"@,
        membership_verb(None) == "changed membership"@,
        a != b ==> membership_verb(Some(a)) != membership_verb(Some(b)),
        a != b ==> member_label(display_name, user_id) + " "@ + membership_verb(Some(a))
            != member_label(display_name, user_id) + " "@ + membership_verb(Some(b)),
{
    reveal_strlit("joined the room");
    reveal_strlit("left the room");
    reveal_strlit("was invited");
    reveal_strlit("accepted the invite");
    reveal_strlit("was kicked");
    reveal_strlit("was banned");
    reveal_strlit("was unbanned");
    reveal_strlit("knocked");
    reveal_strlit("knock accepted");
    reveal_strlit("knock denied");
    reveal_strlit("knock retracted");
    reveal_strlit("declined the invite");
    reveal_strlit("invite revoked");
    reveal_strlit("was kicked and banned");
    reveal_strlit("changed membership");
    let va = membership_verb(Some(a));
    let vb = membership_verb(Some(b));
    if a != b && va == vb {
        assert(va.len() == vb.len());
        assert(va[0] == vb[0]);
        assert(va[4] == vb[4]);
        assert(false);
    }
    if a != b {
        let p = member_label(display_name, user_id) + " "@;
        assert(va != vb);
        if p + va == p + vb {
            assert((p + va).subrange(p.len() as int, (p + va).len() as int) =~= va);
            assert((p + vb).subrange(p.len() as int, (p + vb).len() as int) =~= vb);
        }
    }
}


/// Non-message events read as fixed placeholders, each its own: a removed
/// message, an undecryptable one, a poll and an unsupported type show as
/// system rows, a sticker as `sticker: {body}`; an emote reads
/// `{sender} {body}` as a system row, and an edited message its body with
/// ` (edited)` after it.
pub proof fn law_placeholder_rows(from: Seq<char>, t: MessageType, b: String)
    ensures
        row_text_spec(MsgLike::Redacted, from) == ("message removed"@, true),
        row_text_spec(MsgLike::UnableToDecrypt, from) == ("\u{1f512} unable to decrypt"@, true),
        row_text_spec(MsgLike::Poll, from) == ("[poll \u{2014} open in another client]"@, true),
        row_text_spec(MsgLike::Unsupported, from) == ("[unsupported message type]"@, true),
        row_text_spec(MsgLike::Sticker(b), from) == ("sticker: "@ + b@, false),
        row_text_spec(MsgLike::Message { msgtype: MessageType::Emote(b), edited: false }, from) == (from + " "@ + b@, true),
        !(t is Emote) ==> row_text_spec(MsgLike::Message { msgtype: t, edited: true }, from) == (
            row_text_spec(MsgLike::Message { msgtype: t, edited: false }, from).0 + " (edited)"@,
            false,
        ),
        row_text_spec(MsgLike::Message { msgtype: MessageType::Text(b), edited: false }, from) == (b@, false),
        "message removed"@ != "\u{1f512} unable to decrypt"@,
        "[poll \u{2014} open in another client]"@ != "[unsupported message type]"@,
{
    reveal_strlit("message removed");
    reveal_strlit("\u{1f512} unable to decrypt");
    reveal_strlit("[poll \u{2014} open in another client]");
    reveal_strlit("[unsupported message type]");
    assert("message removed"@[0] != "\u{1f512} unable to decrypt"@[0]);
    assert("[poll \u{2014} open in another client]"@[1] != "[unsupported message type]"@[1]);
}

} // verus!
