//! What the chat screen decides around its rendering: which conversation
//! is active, the header and composer texts, the typing line, rows painted
//! before the backend echoes them, local reaction toggles, when the view
//! pins to the newest message, and what a message row shows.

use vstd::prelude::*;

use crate::mock::{first_emoji, toggle_reaction_list, toggle_reactions, toggle_safe};
use crate::model::{
    opt_view, reactions_view, Attachment, AttachmentKind, Convo, ConvoKind, Duplicate, Message, MessageView,
    ReactionView, SendState, ThreadReply,
};
use crate::profile::{convo_profile, ProfileTarget};
use crate::text::{dec, owned, push_dec, push_str, str_eq, string_from_chars};

verus! {

// ----------------------------------------------------------------------
// The conversation pane
// ----------------------------------------------------------------------

/// The composer's placeholder: `Message #{name}` for a room, `Message
/// {name}` for a direct message.
pub open spec fn placeholder_spec(c: Convo) -> Seq<char> {
    if c.kind == ConvoKind::Room {
        "Message #"@ + c.name@
    } else {
        "Message "@ + c.name@
    }
}

pub fn composer_placeholder(c: &Convo) -> (s: String)
    ensures
        s@ == placeholder_spec(*c),
{
    let mut v: Vec<char> = Vec::new();
    if c.is_room() {
        push_str(&mut v, "Message #");
    } else {
        push_str(&mut v, "Message ");
    }
    push_str(&mut v, c.name.as_str());
    string_from_chars(v.as_slice())
}

/// The header's second line: `{n} members` for a room (0 when unknown),
/// the counterpart's id for a direct message (empty when unknown).
pub open spec fn members_label_spec(c: Convo) -> Seq<char> {
    match c.kind {
        ConvoKind::Room => dec(
            match c.members {
                Some(n) => n as nat,
                None => 0,
            },
        ) + " members"@,
        ConvoKind::Dm => match c.mxid {
            Some(m) => m@,
            None => Seq::empty(),
        },
    }
}

pub fn members_label(c: &Convo) -> (s: String)
    ensures
        s@ == members_label_spec(*c),
{
    match c.kind {
        ConvoKind::Room => {
            let mut v: Vec<char> = Vec::new();
            let n: u32 = match c.members {
                Some(n) => n,
                None => 0,
            };
            push_dec(&mut v, n as u64);
            push_str(&mut v, " members");
            string_from_chars(v.as_slice())
        },
        ConvoKind::Dm => match &c.mxid {
            Some(m) => m.duplicate(),
            None => String::new(),
        },
    }
}

/// The typing line: nobody, one name, two names, or a count.
pub open spec fn typing_label_spec(names: Seq<Seq<char>>) -> Option<Seq<char>> {
    if names.len() == 0 {
        None
    } else if names.len() == 1 {
        Some(names[0] + " is typing\u{2026}"@)
    } else if names.len() == 2 {
        Some(names[0] + " and "@ + names[1] + " are typing\u{2026}"@)
    } else {
        Some(dec(names.len()) + " people are typing\u{2026}"@)
    }
}

pub fn typing_label(names: &Vec<String>) -> (r: Option<String>)
    ensures
        match r {
            Some(s) => typing_label_spec(crate::model::strings_view(names@)) == Some(s@),
            None => typing_label_spec(crate::model::strings_view(names@)) is None,
        },
{
    let ghost ns = crate::model::strings_view(names@);
    let n = names.len();
    let mut v: Vec<char> = Vec::new();
    if n == 0 {
        return None;
    } else if n == 1 {
        push_str(&mut v, names[0].as_str());
        push_str(&mut v, " is typing\u{2026}");
    } else if n == 2 {
        push_str(&mut v, names[0].as_str());
        push_str(&mut v, " and ");
        push_str(&mut v, names[1].as_str());
        push_str(&mut v, " are typing\u{2026}");
    } else {
        push_dec(&mut v, n as u64);
        push_str(&mut v, " people are typing\u{2026}");
    }
    Some(string_from_chars(v.as_slice()))
}

/// The row painted for a message the user just sent when no live timeline
/// echoes it: `pending-{n}` (the number of rows shown), from `You`, `now`.
pub fn optimistic_message(shown: usize, text: String, reply_to: Option<String>, attachment: Option<Attachment>) -> (m: Message)
    ensures
        m.id@ == "pending-"@ + dec(shown as nat),
        m.from@ == "You"@,
        m.time@ == "now"@,
        m.mine,
        !m.system,
        m.text == text,
        m.reply_to == reply_to,
        m.reactions@.len() == 0,
        m.thread_count == 0,
        m.attachment == attachment,
        m.read_by@.len() == 0,
        m.send_state == SendState::Sent,
        m.avatar is None,
{
    let mut id: Vec<char> = Vec::new();
    push_str(&mut id, "pending-");
    push_dec(&mut id, shown as u64);
    Message {
        id: string_from_chars(id.as_slice()),
        from: owned("You"),
        time: owned("now"),
        mine: true,
        system: false,
        text,
        reply_to,
        reactions: Vec::new(),
        thread_count: 0,
        attachment,
        read_by: Vec::new(),
        send_state: SendState::Sent,
        avatar: None,
    }
}

/// Toggles the user's reaction on every shown row with that id (rows of
/// the snapshot path, which no live timeline repaints).
pub fn react_locally(messages: &mut Vec<Message>, message_id: &str, emoji: &str)
    requires
        forall|k: int|
            0 <= k < old(messages)@.len() && (#[trigger] old(messages)@[k]).id@ == message_id@ ==> toggle_safe(
                reactions_view(old(messages)@[k].reactions@),
                emoji@,
            ),
    ensures
        final(messages)@.len() == old(messages)@.len(),
        forall|k: int|
            0 <= k < old(messages)@.len() ==> (#[trigger] final(messages)@[k])@ == if old(messages)@[k].id@ == message_id@ {
                MessageView {
                    reactions: toggle_reactions(old(messages)@[k]@.reactions, emoji@),
                    ..old(messages)@[k]@
                }
            } else {
                old(messages)@[k]@
            },
{
    let ghost before = messages@;
    let mut k: usize = 0;
    while k < messages.len()
        invariant
            messages@.len() == before.len(),
            k <= before.len(),
            forall|j: int|
                0 <= j < before.len() && (#[trigger] before[j]).id@ == message_id@ ==> toggle_safe(
                    reactions_view(before[j].reactions@),
                    emoji@,
                ),
            forall|j: int| k <= j < before.len() ==> #[trigger] messages@[j] == before[j],
            forall|j: int|
                0 <= j < k ==> (#[trigger] messages@[j])@ == if before[j].id@ == message_id@ {
                    MessageView { reactions: toggle_reactions(before[j]@.reactions, emoji@), ..before[j]@ }
                } else {
                    before[j]@
                },
        decreases before.len() - k,
    {
        if str_eq(messages[k].id.as_str(), message_id) {
            let mut m = messages.remove(k);
            let mut rs: Vec<crate::model::Reaction> = Vec::new();
            std::mem::swap(&mut rs, &mut m.reactions);
            m.reactions = toggle_reaction_list(rs, emoji);
            messages.insert(k, m);
        }
        k = k + 1;
    }
}

/// Whether the newest row is the user's own message not yet sent.
pub open spec fn latest_pending_mine_spec(list: Seq<Message>) -> bool {
    list.len() > 0 && list.last().mine && list.last().send_state != SendState::Sent
}

pub fn latest_is_pending_mine(list: &Vec<Message>) -> (r: bool)
    ensures
        r == latest_pending_mine_spec(list@),
{
    if list.len() == 0 {
        return false;
    }
    let m = &list[list.len() - 1];
    m.mine && match m.send_state {
        SendState::Sent => false,
        _ => true,
    }
}

/// Whether new content pins the view to the newest message: when the user
/// reads at the bottom, when their own pending message is newest, or right
/// after they sent one.
pub fn should_pin(at_bottom: bool, latest_pending_mine: bool, just_sent: bool) -> (r: bool)
    ensures
        r == (at_bottom || latest_pending_mine || just_sent),
{
    at_bottom || latest_pending_mine || just_sent
}

// ----------------------------------------------------------------------
// Message rows
// ----------------------------------------------------------------------

/// Reactions offered by the row's emoji picker.
pub const EMOJI_CHOICES: [&'static str; 6] = ["\u{1f44d}", "\u{2764}\u{fe0f}", "\u{1f602}", "\u{1f389}", "\u{2705}", "\u{1f440}"];

/// The media an image row shows inline: its declared thumbnail when it has
/// one, else the image itself; nothing for other rows.
pub open spec fn inline_source_spec(a: Option<Attachment>) -> (Option<String>, Option<String>) {
    match a {
        Some(a) => if a.kind == AttachmentKind::Image {
            if a.thumb_mxc is Some {
                (a.thumb_mxc, a.thumb_encrypted)
            } else {
                (a.mxc, a.encrypted)
            }
        } else {
            (None, None)
        },
        None => (None, None),
    }
}

pub fn inline_image_source(a: &Option<Attachment>) -> (r: (Option<String>, Option<String>))
    ensures
        r == inline_source_spec(*a),
{
    match a {
        Some(a) => match a.kind {
            AttachmentKind::Image => if a.thumb_mxc.is_some() {
                (a.thumb_mxc.duplicate(), a.thumb_encrypted.duplicate())
            } else {
                (a.mxc.duplicate(), a.encrypted.duplicate())
            },
            _ => (None, None),
        },
        None => (None, None),
    }
}

/// The shown message a row replies to: the first with the replied id.
pub fn reply_source(m: &Message, all: &Vec<Message>) -> (r: Option<usize>)
    ensures
        match r {
            Some(i) => m.reply_to matches Some(id) && i < all@.len() && all@[i as int].id@ == id@ && forall|j: int|
                0 <= j < i ==> (#[trigger] all@[j]).id@ != id@,
            None => m.reply_to is None || forall|j: int|
                0 <= j < all@.len() ==> (#[trigger] all@[j]).id@ != opt_view(m.reply_to)->0,
        },
{
    let id = match &m.reply_to {
        Some(id) => id,
        None => {
            return None;
        },
    };
    for i in 0..all.len()
        invariant
            m.reply_to == Some(*id),
            forall|j: int| 0 <= j < i ==> (#[trigger] all@[j]).id@ != id@,
    {
        if str_eq(all[i].id.as_str(), id.as_str()) {
            return Some(i);
        }
    }
    None
}

/// The quoted line above a reply: `{from}: {text}` of the replied message.
pub fn reply_preview(src: &Message) -> (s: String)
    ensures
        s@ == src.from@ + ": "@ + src.text@,
{
    let mut v: Vec<char> = Vec::new();
    push_str(&mut v, src.from.as_str());
    push_str(&mut v, ": ");
    push_str(&mut v, src.text.as_str());
    string_from_chars(v.as_slice())
}

/// Whether a row shows its text bubble: not for empty text, nor when the
/// text only repeats the attachment's file name (captions still show).
pub open spec fn shows_bubble_spec(m: Message) -> bool {
    m.text@.len() > 0 && match m.attachment {
        Some(a) => a.name@ != m.text@,
        None => true,
    }
}

pub fn shows_bubble(m: &Message) -> (r: bool)
    ensures
        r == shows_bubble_spec(*m),
{
    if m.text.as_str().is_empty() {
        return false;
    }
    match &m.attachment {
        Some(a) => !str_eq(a.name.as_str(), m.text.as_str()),
        None => true,
    }
}

/// The reserved aspect of an image placeholder, from its declared size.
pub open spec fn aspect_spec(w: Option<u32>, h: Option<u32>) -> Seq<char> {
    match (w, h) {
        (Some(w), Some(h)) => if w > 0 && h > 0 {
            "aspect-ratio:"@ + dec(w as nat) + "/"@ + dec(h as nat) + ";"@
        } else {
            Seq::empty()
        },
        _ => Seq::empty(),
    }
}

pub fn image_aspect(w: Option<u32>, h: Option<u32>) -> (s: String)
    ensures
        s@ == aspect_spec(w, h),
{
    match (w, h) {
        (Some(w), Some(h)) => if w > 0 && h > 0 {
            let mut v: Vec<char> = Vec::new();
            push_str(&mut v, "aspect-ratio:");
            push_dec(&mut v, w as u64);
            push_str(&mut v, "/");
            push_dec(&mut v, h as u64);
            push_str(&mut v, ";");
            string_from_chars(v.as_slice())
        } else {
            String::new()
        },
        _ => String::new(),
    }
}

/// `a, b, c`: names joined by commas.
pub open spec fn comma_joined(names: Seq<Seq<char>>) -> Seq<char>
    decreases names.len(),
{
    if names.len() == 0 {
        Seq::empty()
    } else if names.len() == 1 {
        names[0]
    } else {
        comma_joined(names.drop_last()) + ", "@ + names.last()
    }
}

/// The read line under a row: `Seen by {names}`, when anyone read it.
pub fn seen_by_label(read_by: &Vec<String>) -> (r: Option<String>)
    ensures
        read_by@.len() == 0 <==> r is None,
        r matches Some(s) ==> s@ == " Seen by "@ + comma_joined(crate::model::strings_view(read_by@)),
{
    if read_by.len() == 0 {
        return None;
    }
    let ghost ns = crate::model::strings_view(read_by@);
    let mut v: Vec<char> = Vec::new();
    push_str(&mut v, " Seen by ");
    let ghost head = v@;
    for i in 0..read_by.len()
        invariant
            ns == crate::model::strings_view(read_by@),
            head == " Seen by "@,
            v@ == head + comma_joined(ns.take(i as int)),
    {
        if i > 0 {
            push_str(&mut v, ", ");
        }
        push_str(&mut v, read_by[i].as_str());
        proof {
            assert(ns.take(i + 1).drop_last() =~= ns.take(i as int));
            assert(ns.take(i + 1).last() == ns[i as int]);
            if i == 0 {
                assert(comma_joined(ns.take(0)) =~= Seq::<char>::empty());
            }
        }
        assert(v@ =~= head + comma_joined(ns.take(i + 1)));
    }
    assert(ns.take(ns.len() as int) =~= ns);
    Some(string_from_chars(v.as_slice()))
}

/// The thread badge of a root: `{n} replies`, when it has any.
pub fn replies_label(count: u32) -> (r: Option<String>)
    ensures
        count == 0 <==> r is None,
        r matches Some(s) ==> s@ == dec(count as nat) + " replies"@,
{
    if count == 0 {
        return None;
    }
    let mut v: Vec<char> = Vec::new();
    push_dec(&mut v, count as u64);
    push_str(&mut v, " replies");
    Some(string_from_chars(v.as_slice()))
}

// ----------------------------------------------------------------------
// The chat view
// ----------------------------------------------------------------------

pub open spec fn of_kind(kind: ConvoKind) -> spec_fn(Convo) -> bool {
    |c: Convo| c.kind == kind
}

/// The conversations of one kind, in order (the drawer's two lists).
pub fn convos_of_kind(all: &Vec<Convo>, kind: ConvoKind) -> (r: Vec<Convo>)
    ensures
        r@ == all@.filter(of_kind(kind)),
{
    let ghost pred = of_kind(kind);
    let mut r: Vec<Convo> = Vec::new();
    for i in 0..all.len()
        invariant
            pred == of_kind(kind),
            r@ == all@.take(i as int).filter(pred),
    {
        proof {
            assert(all@.take(i + 1).drop_last() =~= all@.take(i as int));
            reveal(Seq::filter);
        }
        if all[i].kind == kind {
            r.push(all[i].duplicate());
        }
    }
    assert(all@.take(all@.len() as int) =~= all@);
    r
}

/// The conversation the chat view shows: the routed one when it is known,
/// else the first room.
pub fn active_convo(all: &Vec<Convo>, room_id: Option<&str>) -> (r: Option<usize>)
    ensures
        match r {
            Some(i) => i < all@.len() && (match room_id {
                Some(id) => {
                    ||| all@[i as int].id@ == id@ && forall|j: int| 0 <= j < i ==> (#[trigger] all@[j]).id@ != id@
                    ||| (forall|j: int| 0 <= j < all@.len() ==> (#[trigger] all@[j]).id@ != id@)
                        && all@[i as int].kind == ConvoKind::Room && forall|j: int|
                        0 <= j < i ==> (#[trigger] all@[j]).kind != ConvoKind::Room
                },
                None => all@[i as int].kind == ConvoKind::Room && forall|j: int|
                    0 <= j < i ==> (#[trigger] all@[j]).kind != ConvoKind::Room,
            }),
            None => (match room_id {
                Some(id) => forall|j: int| 0 <= j < all@.len() ==> (#[trigger] all@[j]).id@ != id@,
                None => true,
            }) && forall|j: int| 0 <= j < all@.len() ==> (#[trigger] all@[j]).kind != ConvoKind::Room,
        },
{
    if let Some(id) = room_id {
        for i in 0..all.len()
            invariant
                room_id == Some(id),
                forall|j: int| 0 <= j < i ==> (#[trigger] all@[j]).id@ != id@,
        {
            if str_eq(all[i].id.as_str(), id) {
                return Some(i);
            }
        }
    }
    for i in 0..all.len()
        invariant
            match room_id {
                Some(id) => forall|j: int| 0 <= j < all@.len() ==> (#[trigger] all@[j]).id@ != id@,
                None => true,
            },
            forall|j: int| 0 <= j < i ==> (#[trigger] all@[j]).kind != ConvoKind::Room,
    {
        if all[i].is_room() {
            return Some(i);
        }
    }
    None
}

/// `s` without its spaces.
pub open spec fn without_spaces(s: Seq<char>) -> Seq<char> {
    s.filter(|c: char| c != ' ')
}

/// The id a profile opened by name alone gets:
/// `@{name, lowercased, without spaces}:matrix.org`.
pub open spec fn guessed_mxid(name: Seq<char>) -> Seq<char> {
    "@"@ + without_spaces(crate::text::lowercased(name)) + ":matrix.org"@
}

/// The profile opened from a sender's name: the direct message with that
/// name, else that person with a guessed id.
pub fn profile_for_name(dms: &Vec<Convo>, name: &str) -> (t: ProfileTarget)
    ensures
        (exists|k: int| 0 <= k < dms@.len() && (#[trigger] dms@[k]).name@ == name@) ==> exists|k: int|
            0 <= k < dms@.len() && (#[trigger] dms@[k]).name@ == name@ && (forall|j: int|
                0 <= j < k ==> (#[trigger] dms@[j]).name@ != name@) && t == convo_profile(dms@[k]),
        (forall|k: int| 0 <= k < dms@.len() ==> (#[trigger] dms@[k]).name@ != name@) ==> {
            &&& t.id is None
            &&& t.name@ == name@
            &&& opt_view(t.mxid) == Some(guessed_mxid(name@))
            &&& t.status == Some(crate::model::Presence::Online)
            &&& !t.is_room
        },
{
    for k in 0..dms.len()
        invariant
            forall|j: int| 0 <= j < k ==> (#[trigger] dms@[j]).name@ != name@,
    {
        if str_eq(dms[k].name.as_str(), name) {
            return ProfileTarget::from_convo(dms[k].duplicate());
        }
    }
    let lower = crate::text::to_lowercase(name);
    let ghost low = lower@;
    let mut v: Vec<char> = Vec::new();
    push_str(&mut v, "@");
    let ghost head = v@;
    for c in it: lower.as_str().chars()
        invariant
            head == "@"@,
            it.seq() == low,
            v@ == head + without_spaces(low.take(it.index() as int)),
    {
        proof {
            assert(low.take(it.index() + 1).drop_last() =~= low.take(it.index() as int));
            reveal(Seq::filter);
        }
        if c != ' ' {
            v.push(c);
        }
        proof {
            assert(v@ =~= head + without_spaces(low.take(it.index() + 1)));
        }
    }
    assert(low.take(low.len() as int) =~= low);
    push_str(&mut v, ":matrix.org");
    let mxid = string_from_chars(v.as_slice());
    ProfileTarget::person(name, mxid.as_str())
}

/// An ongoing call as the call screen shows it.
#[derive(Debug, Clone, PartialEq, Eq)]
pub struct CallState {
    pub name: String,
    pub video: bool,
    pub is_dm: bool,
}

/// The call started from a conversation.
pub fn call_for(c: &Convo, video: bool) -> (s: CallState)
    ensures
        s.name == c.name,
        s.video == video,
        s.is_dm == (c.kind == ConvoKind::Dm),
{
    CallState { name: c.name.duplicate(), video, is_dm: !c.is_room() }
}

/// Someone on the call screen.
#[derive(Debug, Clone, PartialEq, Eq)]
pub struct Participant {
    pub name: String,
    pub me: bool,
    pub muted: bool,
}

/// Who the call screen shows: the user (muted when the microphone is off)
/// and the counterpart of a direct call, or the user and the room's fixed
/// sample of three members.
pub fn call_participants(call: &CallState, mic_on: bool) -> (ps: Vec<Participant>)
    ensures
        ps@.len() == if call.is_dm { 2nat } else { 4nat },
        ps@[0].name@ == "You"@ && ps@[0].me && ps@[0].muted == !mic_on,
        call.is_dm ==> ps@[1].name == call.name && !ps@[1].me && !ps@[1].muted,
        !call.is_dm ==> ps@[1].name@ == "Akari Fur"@ && !ps@[1].me && !ps@[1].muted
            && ps@[2].name@ == "Mira Solheim"@ && !ps@[2].me && ps@[2].muted
            && ps@[3].name@ == "Jonas Reyk"@ && !ps@[3].me && !ps@[3].muted,
{
    let mut ps: Vec<Participant> = Vec::new();
    ps.push(Participant { name: owned("You"), me: true, muted: !mic_on });
    if call.is_dm {
        ps.push(Participant { name: call.name.duplicate(), me: false, muted: false });
    } else {
        ps.push(Participant { name: owned("Akari Fur"), me: false, muted: false });
        ps.push(Participant { name: owned("Mira Solheim"), me: false, muted: true });
        ps.push(Participant { name: owned("Jonas Reyk"), me: false, muted: false });
    }
    ps
}

/// The call screen's subtitle: `{name} · Video call` or `· Voice call`.
pub fn call_subtitle(call: &CallState) -> (s: String)
    ensures
        s@ == call.name@ + " \u{b7} "@ + if call.video { "Video call"@ } else { "Voice call"@ },
{
    let mut v: Vec<char> = Vec::new();
    push_str(&mut v, call.name.as_str());
    push_str(&mut v, " \u{b7} ");
    push_str(&mut v, if call.video { "Video call" } else { "Voice call" });
    string_from_chars(v.as_slice())
}

/// A call control's background and text colours: danger controls are red,
/// active ones raised, inactive ones white.
pub fn control_colors(active: bool, danger: bool) -> (r: (&'static str, &'static str))
    ensures
        r.0@ == if danger { "var(--status-danger)"@ } else if active { "var(--bg-surface-raised)"@ } else { "var(--white)"@ },
        r.1@ == if danger { "var(--white)"@ } else if active { "var(--text-primary)"@ } else { "var(--black)"@ },
{
    if danger {
        ("var(--status-danger)", "var(--white)")
    } else if active {
        ("var(--bg-surface-raised)", "var(--text-primary)")
    } else {
        ("var(--white)", "var(--black)")
    }
}

// ----------------------------------------------------------------------
// The quick switcher
// ----------------------------------------------------------------------

/// Whether a conversation's name contains the query, ignoring case.
pub open spec fn name_matches(query: Seq<char>) -> spec_fn(Convo) -> bool {
    |c: Convo| crate::text::occurs_in(crate::text::lowercased(c.name@), crate::text::lowercased(query))
}

/// The switcher's results: direct messages, then rooms, whose names
/// contain the query, ignoring case.
pub fn switcher_results(dms: &Vec<Convo>, rooms: &Vec<Convo>, query: &str) -> (r: Vec<Convo>)
    ensures
        r@ == (dms@ + rooms@).filter(name_matches(query@)),
{
    let q = crate::text::chars_of(crate::text::to_lowercase(query).as_str());
    let ghost pred = name_matches(query@);
    let mut r: Vec<Convo> = Vec::new();
    for i in 0..dms.len()
        invariant
            pred == name_matches(query@),
            q@ == crate::text::lowercased(query@),
            r@ == dms@.take(i as int).filter(pred),
    {
        proof {
            assert(dms@.take(i + 1).drop_last() =~= dms@.take(i as int));
            reveal(Seq::filter);
        }
        let name = crate::text::chars_of(crate::text::to_lowercase(dms[i].name.as_str()).as_str());
        if crate::text::contains_seq(&name, &q) {
            r.push(dms[i].duplicate());
        }
    }
    assert(dms@.take(dms@.len() as int) =~= dms@);
    let ghost head = r@;
    for j in 0..rooms.len()
        invariant
            pred == name_matches(query@),
            q@ == crate::text::lowercased(query@),
            head == dms@.filter(pred),
            r@ == head + rooms@.take(j as int).filter(pred),
    {
        proof {
            assert(rooms@.take(j + 1).drop_last() =~= rooms@.take(j as int));
            reveal(Seq::filter);
        }
        let name = crate::text::chars_of(crate::text::to_lowercase(rooms[j].name.as_str()).as_str());
        if crate::text::contains_seq(&name, &q) {
            r.push(rooms[j].duplicate());
        }
        assert(r@ =~= head + rooms@.take(j + 1).filter(pred));
    }
    assert(rooms@.take(rooms@.len() as int) =~= rooms@);
    proof {
        Seq::filter_distributes_over_add(dms@, rooms@, pred);
    }
    r
}

// ----------------------------------------------------------------------
// The composer
// ----------------------------------------------------------------------

/// What the composer sends: the draft without surrounding whitespace and
/// the staged attachment; nothing when both are empty.
pub fn composer_send(draft: &str, attachment: Option<Attachment>) -> (r: Option<(String, Option<Attachment>)>)
    ensures
        (crate::text::trim(draft@).len() == 0 && attachment is None) <==> r is None,
        r matches Some((t, a)) ==> t@ == crate::text::trim(draft@) && a == attachment,
{
    let t = crate::text::trim_vec(&crate::text::chars_of(draft));
    if t.len() == 0 && attachment.is_none() {
        return None;
    }
    Some((string_from_chars(t.as_slice()), attachment))
}

/// Whether an edit of the draft reports typing: while it is non-empty.
pub fn typing_on_input(draft: &str) -> (b: bool)
    ensures
        b == (draft@.len() > 0),
{
    !draft.is_empty()
}

/// Whether a key press sends: Enter without Shift (Shift+Enter breaks the
/// line).
pub fn sends_on_key(is_enter: bool, shift: bool) -> (b: bool)
    ensures
        b == (is_enter && !shift),
{
    is_enter && !shift
}

/// A picked file staged for upload: its kind by extension, its name (`file`
/// when the path has none), its size when it could be read, and its path.
pub fn staged_attachment(path: &str, file_name: Option<&str>, size: Option<u64>) -> (a: Attachment)
    ensures
        a.kind == crate::media::kind_of_spec(path@),
        a.name@ == match file_name {
            Some(n) => n@,
            None => "file"@,
        },
        a.size@ == match size {
            Some(n) => crate::media::format_size_spec(n as nat),
            None => Seq::<char>::empty(),
        },
        opt_view(a.local_path) == Some(path@),
        a.mxc is None && a.mime is None && a.width is None && a.height is None,
        a.thumb_mxc is None && a.encrypted is None && a.thumb_encrypted is None,
{
    let name = match file_name {
        Some(n) => owned(n),
        None => owned("file"),
    };
    let size = match size {
        Some(n) => crate::media::format_size(n),
        None => String::new(),
    };
    let mut a = Attachment::new(crate::media::kind_of(path), name, size);
    a.local_path = Some(owned(path));
    a
}

// ----------------------------------------------------------------------
// The thread panel
// ----------------------------------------------------------------------

/// The replies the thread panel lists: the live thread when the backend
/// publishes one, else the fetched replies followed by those painted
/// locally.
pub fn thread_rows(live: Option<&Vec<ThreadReply>>, fetched: &Vec<ThreadReply>, painted: &Vec<ThreadReply>) -> (r: Vec<ThreadReply>)
    ensures
        r@ == match live {
            Some(l) => l@,
            None => fetched@ + painted@,
        },
{
    match live {
        Some(l) => {
            let mut r: Vec<ThreadReply> = Vec::new();
            for i in 0..l.len()
                invariant
                    r@ == l@.take(i as int),
            {
                r.push(l[i].duplicate());
                assert(r@ =~= l@.take(i + 1));
            }
            assert(l@.take(l@.len() as int) =~= l@);
            r
        },
        None => {
            let mut r: Vec<ThreadReply> = Vec::new();
            for i in 0..fetched.len()
                invariant
                    r@ == fetched@.take(i as int),
            {
                r.push(fetched[i].duplicate());
                assert(r@ =~= fetched@.take(i + 1));
            }
            assert(fetched@.take(fetched@.len() as int) =~= fetched@);
            for j in 0..painted.len()
                invariant
                    r@ == fetched@ + painted@.take(j as int),
            {
                r.push(painted[j].duplicate());
                assert(r@ =~= fetched@ + painted@.take(j + 1));
            }
            assert(painted@.take(painted@.len() as int) =~= painted@);
            r
        },
    }
}

/// The reply painted locally when the user answers in a thread no live
/// timeline echoes; empty answers are not sent.
pub fn painted_reply(text: &str, live: bool) -> (r: Option<ThreadReply>)
    ensures
        (text@.len() == 0 || live) <==> r is None,
        r matches Some(t) ==> t.from@ == "You"@ && t.mine && t.time@ == "now"@ && t.text@ == text@,
{
    if text.is_empty() || live {
        return None;
    }
    Some(ThreadReply { from: owned("You"), time: owned("now"), mine: true, text: owned(text) })
}

} // verus!
