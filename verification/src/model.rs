//! Domain types shared by every backend: plain data, no protocol types.

use vstd::prelude::*;

use crate::text::owned;

verus! {

/// The signed-in account.
#[derive(Debug, Clone, PartialEq, Eq)]
pub struct Me {
    pub name: String,
    pub id: String,
    /// Account avatar (`mxc://`), `None` for the initials fallback.
    pub avatar: Option<String>,
}

/// A joined space and the rooms it lists, in the space's declared order.
#[derive(Debug, Clone, PartialEq, Eq)]
pub struct Space {
    pub id: String,
    pub name: String,
    pub avatar: Option<String>,
    pub members: Option<u32>,
    pub children: Vec<String>,
}

#[derive(Debug, Clone, Copy, PartialEq, Eq, Structural)]
pub enum Presence {
    Online,
    Away,
    Offline,
}

#[derive(Debug, Clone, Copy, PartialEq, Eq, Structural)]
pub enum ConvoKind {
    Dm,
    Room,
}

/// A direct message or a room.
#[derive(Debug, Clone, PartialEq, Eq)]
pub struct Convo {
    pub id: String,
    pub kind: ConvoKind,
    pub name: String,
    pub last: String,
    pub unread: u32,
    pub encrypted: bool,
    pub avatar: Option<String>,
    // DM-only
    pub mxid: Option<String>,
    pub status: Option<Presence>,
    // Room-only
    pub topic: Option<String>,
    pub space: Option<String>,
    pub members: Option<u32>,
}

impl Convo {
    pub fn is_room(&self) -> (b: bool)
        ensures
            b == (self.kind == ConvoKind::Room),
    {
        match self.kind {
            ConvoKind::Room => true,
            ConvoKind::Dm => false,
        }
    }
}

#[derive(Debug, Clone, Copy, PartialEq, Eq, Structural)]
pub enum AttachmentKind {
    Image,
    File,
    Video,
    Audio,
}

/// An attachment on a message, or one staged for upload.
#[derive(Debug, Clone, PartialEq, Eq)]
pub struct Attachment {
    pub kind: AttachmentKind,
    pub name: String,
    /// Human-readable size for file cards (e.g. `340 KB`).
    pub size: String,
    pub mxc: Option<String>,
    pub mime: Option<String>,
    pub width: Option<u32>,
    pub height: Option<u32>,
    pub thumb_mxc: Option<String>,
    pub encrypted: Option<String>,
    pub thumb_encrypted: Option<String>,
    /// Composer staging only: path of a picked local file pending upload.
    pub local_path: Option<String>,
}

impl Attachment {
    /// An attachment with no media metadata resolved yet.
    pub fn new(kind: AttachmentKind, name: String, size: String) -> (a: Attachment)
        ensures
            a.kind == kind,
            a.name == name,
            a.size == size,
            a.mxc is None,
            a.mime is None,
            a.width is None,
            a.height is None,
            a.thumb_mxc is None,
            a.encrypted is None,
            a.thumb_encrypted is None,
            a.local_path is None,
    {
        Attachment {
            kind,
            name,
            size,
            mxc: None,
            mime: None,
            width: None,
            height: None,
            thumb_mxc: None,
            encrypted: None,
            thumb_encrypted: None,
            local_path: None,
        }
    }
}

#[derive(Debug, Clone, PartialEq, Eq)]
pub struct Reaction {
    pub emoji: String,
    pub count: u32,
    pub me: bool,
}

/// Delivery state of a message the local user sent.
#[derive(Debug, Clone, Copy, PartialEq, Eq, Structural)]
pub enum SendState {
    Sent,
    Sending,
    Failed,
}

impl Default for SendState {
    fn default() -> (s: SendState)
        ensures
            s == SendState::Sent,
    {
        SendState::Sent
    }
}

#[derive(Debug, Clone, PartialEq, Eq)]
pub struct Message {
    pub id: String,
    pub from: String,
    pub time: String,
    pub mine: bool,
    pub system: bool,
    pub text: String,
    pub reply_to: Option<String>,
    pub reactions: Vec<Reaction>,
    pub thread_count: u32,
    pub attachment: Option<Attachment>,
    pub read_by: Vec<String>,
    pub send_state: SendState,
    pub avatar: Option<String>,
}

impl Message {
    /// A plain received message: not mine, not a system row, no
    /// reactions, replies, attachment or readers, sent.
    pub fn new(id: &str, from: &str, time: &str, text: &str) -> (m: Message)
        ensures
            m.id@ == id@,
            m.from@ == from@,
            m.time@ == time@,
            m.text@ == text@,
            !m.mine,
            !m.system,
            m.reply_to is None,
            m.reactions@ == Seq::<Reaction>::empty(),
            m.thread_count == 0,
            m.attachment is None,
            m.read_by@ == Seq::<String>::empty(),
            m.send_state == SendState::Sent,
            m.avatar is None,
    {
        Message {
            id: owned(id),
            from: owned(from),
            time: owned(time),
            mine: false,
            system: false,
            text: owned(text),
            reply_to: None,
            reactions: Vec::new(),
            thread_count: 0,
            attachment: None,
            read_by: Vec::new(),
            send_state: SendState::Sent,
            avatar: None,
        }
    }
}

#[derive(Debug, Clone, PartialEq, Eq)]
pub struct ThreadReply {
    pub from: String,
    pub time: String,
    pub mine: bool,
    pub text: String,
}

#[derive(Debug, Clone, PartialEq, Eq)]
pub struct Device {
    pub id: String,
    pub name: String,
    pub last_seen: String,
    pub verified: bool,
    /// The session this client runs as.
    pub current: bool,
}

/// Who an interactive verification session runs against.
#[derive(Debug, Clone, PartialEq, Eq)]
pub enum VerificationTarget {
    /// One of the signed-in user's other sessions, by device id.
    Device(String),
    /// A conversation counterpart, by MXID.
    User(String),
}

/// One emoji of a SAS short-auth string.
#[derive(Debug, Clone, PartialEq, Eq)]
pub struct SasEmoji {
    pub symbol: String,
    pub description: String,
}

/// Lifecycle of an interactive verification session.
#[derive(Debug, Clone, PartialEq, Eq)]
pub enum VerificationState {
    Requested,
    Ready,
    EmojisShown,
    Confirmed,
    Done,
    Cancelled,
    Failed(String),
}

/// The active verification session shown by the dialog.
#[derive(Debug, Clone, PartialEq, Eq)]
pub struct VerificationSession {
    pub subject: String,
    pub target: VerificationTarget,
    pub state: VerificationState,
    pub emojis: Vec<SasEmoji>,
}

/// User decisions driving an active verification session.
#[derive(Debug, Clone, Copy, PartialEq, Eq, Structural)]
pub enum VerificationAction {
    Confirm,
    Mismatch,
    Cancel,
}

#[derive(Debug, Clone, PartialEq, Eq)]
pub struct PublicRoom {
    pub id: String,
    pub name: String,
    pub members: u32,
    pub topic: String,
}

#[derive(Debug, Clone, PartialEq, Eq)]
pub struct PublicSpace {
    pub id: String,
    pub name: String,
    pub members: u32,
    pub topic: String,
}

/// One page of the public room directory; `next` continues it.
#[derive(Debug, Clone, PartialEq, Eq)]
pub struct PublicRoomPage {
    pub rooms: Vec<PublicRoom>,
    pub next: Option<String>,
}

/// One page of the public space directory; `next` continues it.
#[derive(Debug, Clone, PartialEq, Eq)]
pub struct PublicSpacePage {
    pub spaces: Vec<PublicSpace>,
    pub next: Option<String>,
}

/// One notification settings toggle as shown in the UI.
#[derive(Debug, Clone, PartialEq, Eq)]
pub struct NotifToggle {
    pub id: String,
    pub label: String,
    pub enabled: bool,
}

/// Device-local application preferences.
#[derive(Debug, Clone, PartialEq, Eq)]
pub struct Prefs {
    pub version: u32,
    pub theme: String,
    pub read_receipts: bool,
    pub typing_indicators: bool,
}

impl Default for Prefs {
    fn default() -> (p: Prefs)
        ensures
            p.version == 1,
            p.theme@ == "dark"@,
            p.read_receipts,
            p.typing_indicators,
    {
        Prefs { version: 1, theme: owned("dark"), read_receipts: true, typing_indicators: true }
    }
}


/// The characters of an optional string.
pub open spec fn opt_view(o: Option<String>) -> Option<Seq<char>> {
    match o {
        Some(s) => Some(s@),
        None => None,
    }
}

/// The characters of each string of a list.
pub open spec fn strings_view(v: Seq<String>) -> Seq<Seq<char>> {
    v.map_values(|s: String| s@)
}

/// A reaction as plain values.
pub struct ReactionView {
    pub emoji: Seq<char>,
    pub count: u32,
    pub me: bool,
}

impl View for Reaction {
    type V = ReactionView;

    open spec fn view(&self) -> ReactionView {
        ReactionView { emoji: self.emoji@, count: self.count, me: self.me }
    }
}

/// The reactions of a list as plain values.
pub open spec fn reactions_view(v: Seq<Reaction>) -> Seq<ReactionView> {
    v.map_values(|r: Reaction| r@)
}

/// A message as plain values.
pub struct MessageView {
    pub id: Seq<char>,
    pub from: Seq<char>,
    pub time: Seq<char>,
    pub mine: bool,
    pub system: bool,
    pub text: Seq<char>,
    pub reply_to: Option<Seq<char>>,
    pub reactions: Seq<ReactionView>,
    pub thread_count: u32,
    pub attachment: Option<Attachment>,
    pub read_by: Seq<Seq<char>>,
    pub send_state: SendState,
    pub avatar: Option<Seq<char>>,
}

impl View for Message {
    type V = MessageView;

    open spec fn view(&self) -> MessageView {
        MessageView {
            id: self.id@,
            from: self.from@,
            time: self.time@,
            mine: self.mine,
            system: self.system,
            text: self.text@,
            reply_to: opt_view(self.reply_to),
            reactions: reactions_view(self.reactions@),
            thread_count: self.thread_count,
            attachment: self.attachment,
            read_by: strings_view(self.read_by@),
            send_state: self.send_state,
            avatar: opt_view(self.avatar),
        }
    }
}

/// The messages of a list as plain values.
pub open spec fn messages_view(v: Seq<Message>) -> Seq<MessageView> {
    v.map_values(|m: Message| m@)
}

/// A conversation as plain values.
pub struct ConvoView {
    pub id: Seq<char>,
    pub kind: ConvoKind,
    pub name: Seq<char>,
    pub last: Seq<char>,
    pub unread: u32,
    pub encrypted: bool,
    pub avatar: Option<Seq<char>>,
    pub mxid: Option<Seq<char>>,
    pub status: Option<Presence>,
    pub topic: Option<Seq<char>>,
    pub space: Option<Seq<char>>,
    pub members: Option<u32>,
}

impl View for Convo {
    type V = ConvoView;

    open spec fn view(&self) -> ConvoView {
        ConvoView {
            id: self.id@,
            kind: self.kind,
            name: self.name@,
            last: self.last@,
            unread: self.unread,
            encrypted: self.encrypted,
            avatar: opt_view(self.avatar),
            mxid: opt_view(self.mxid),
            status: self.status,
            topic: opt_view(self.topic),
            space: opt_view(self.space),
            members: self.members,
        }
    }
}

/// The conversations of a list as plain values.
pub open spec fn convos_view(v: Seq<Convo>) -> Seq<ConvoView> {
    v.map_values(|c: Convo| c@)
}

/// A space as plain values.
pub struct SpaceView {
    pub id: Seq<char>,
    pub name: Seq<char>,
    pub avatar: Option<Seq<char>>,
    pub members: Option<u32>,
    pub children: Seq<Seq<char>>,
}

impl View for Space {
    type V = SpaceView;

    open spec fn view(&self) -> SpaceView {
        SpaceView {
            id: self.id@,
            name: self.name@,
            avatar: opt_view(self.avatar),
            members: self.members,
            children: strings_view(self.children@),
        }
    }
}

/// The spaces of a list as plain values.
pub open spec fn spaces_view(v: Seq<Space>) -> Seq<SpaceView> {
    v.map_values(|s: Space| s@)
}

/// A verification session as plain values.
pub struct SessionView {
    pub subject: Seq<char>,
    pub target: VerificationTarget,
    pub state: VerificationState,
    pub emojis: Seq<SasEmoji>,
}

impl View for VerificationSession {
    type V = SessionView;

    open spec fn view(&self) -> SessionView {
        SessionView {
            subject: self.subject@,
            target: self.target,
            state: self.state,
            emojis: self.emojis@,
        }
    }
}

/// Values that can be copied into an equal, independently owned value.
pub trait Duplicate: Sized {
    fn duplicate(&self) -> (r: Self)
        ensures
            r == *self,
    ;
}

impl Duplicate for String {
    fn duplicate(&self) -> (r: String) {
        self.clone()
    }
}

impl<T: Duplicate> Duplicate for Option<T> {
    fn duplicate(&self) -> (r: Option<T>) {
        match self {
            Some(x) => Some(x.duplicate()),
            None => None,
        }
    }
}

/// An element-wise copy of `v`.
pub fn duplicate_all<T: Duplicate>(v: &Vec<T>) -> (r: Vec<T>)
    ensures
        r@ == v@,
{
    let mut r: Vec<T> = Vec::new();
    for i in 0..v.len()
        invariant
            r@ == v@.take(i as int),
    {
        r.push(v[i].duplicate());
        assert(r@ =~= v@.take(i + 1));
    }
    assert(v@.take(v@.len() as int) =~= v@);
    r
}

impl Duplicate for Me {
    fn duplicate(&self) -> (r: Me) {
        Me { name: self.name.duplicate(), id: self.id.duplicate(), avatar: self.avatar.duplicate() }
    }
}

impl Duplicate for Convo {
    fn duplicate(&self) -> (r: Convo) {
        Convo {
            id: self.id.duplicate(),
            kind: self.kind,
            name: self.name.duplicate(),
            last: self.last.duplicate(),
            unread: self.unread,
            encrypted: self.encrypted,
            avatar: self.avatar.duplicate(),
            mxid: self.mxid.duplicate(),
            status: self.status,
            topic: self.topic.duplicate(),
            space: self.space.duplicate(),
            members: self.members,
        }
    }
}

impl Duplicate for Attachment {
    fn duplicate(&self) -> (r: Attachment) {
        Attachment {
            kind: self.kind,
            name: self.name.duplicate(),
            size: self.size.duplicate(),
            mxc: self.mxc.duplicate(),
            mime: self.mime.duplicate(),
            width: self.width,
            height: self.height,
            thumb_mxc: self.thumb_mxc.duplicate(),
            encrypted: self.encrypted.duplicate(),
            thumb_encrypted: self.thumb_encrypted.duplicate(),
            local_path: self.local_path.duplicate(),
        }
    }
}

impl Duplicate for Reaction {
    fn duplicate(&self) -> (r: Reaction) {
        Reaction { emoji: self.emoji.duplicate(), count: self.count, me: self.me }
    }
}

impl Duplicate for ThreadReply {
    fn duplicate(&self) -> (r: ThreadReply) {
        ThreadReply {
            from: self.from.duplicate(),
            time: self.time.duplicate(),
            mine: self.mine,
            text: self.text.duplicate(),
        }
    }
}

impl Duplicate for Device {
    fn duplicate(&self) -> (r: Device) {
        Device {
            id: self.id.duplicate(),
            name: self.name.duplicate(),
            last_seen: self.last_seen.duplicate(),
            verified: self.verified,
            current: self.current,
        }
    }
}

impl Duplicate for PublicRoom {
    fn duplicate(&self) -> (r: PublicRoom) {
        PublicRoom {
            id: self.id.duplicate(),
            name: self.name.duplicate(),
            members: self.members,
            topic: self.topic.duplicate(),
        }
    }
}

impl Duplicate for PublicSpace {
    fn duplicate(&self) -> (r: PublicSpace) {
        PublicSpace {
            id: self.id.duplicate(),
            name: self.name.duplicate(),
            members: self.members,
            topic: self.topic.duplicate(),
        }
    }
}

impl Duplicate for NotifToggle {
    fn duplicate(&self) -> (r: NotifToggle) {
        NotifToggle { id: self.id.duplicate(), label: self.label.duplicate(), enabled: self.enabled }
    }
}

impl Duplicate for Prefs {
    fn duplicate(&self) -> (r: Prefs) {
        Prefs {
            version: self.version,
            theme: self.theme.duplicate(),
            read_receipts: self.read_receipts,
            typing_indicators: self.typing_indicators,
        }
    }
}

impl Duplicate for SasEmoji {
    fn duplicate(&self) -> (r: SasEmoji) {
        SasEmoji { symbol: self.symbol.duplicate(), description: self.description.duplicate() }
    }
}

impl Duplicate for VerificationTarget {
    fn duplicate(&self) -> (r: VerificationTarget) {
        match self {
            VerificationTarget::Device(id) => VerificationTarget::Device(id.duplicate()),
            VerificationTarget::User(id) => VerificationTarget::User(id.duplicate()),
        }
    }
}

impl Duplicate for VerificationState {
    fn duplicate(&self) -> (r: VerificationState) {
        match self {
            VerificationState::Requested => VerificationState::Requested,
            VerificationState::Ready => VerificationState::Ready,
            VerificationState::EmojisShown => VerificationState::EmojisShown,
            VerificationState::Confirmed => VerificationState::Confirmed,
            VerificationState::Done => VerificationState::Done,
            VerificationState::Cancelled => VerificationState::Cancelled,
            VerificationState::Failed(why) => VerificationState::Failed(why.duplicate()),
        }
    }
}

impl Message {
    /// A copy of this message with the same plain values.
    pub fn copy_message(&self) -> (r: Message)
        ensures
            r@ == self@,
    {
        let reactions = duplicate_all(&self.reactions);
        let read_by = duplicate_all(&self.read_by);
        Message {
            id: self.id.duplicate(),
            from: self.from.duplicate(),
            time: self.time.duplicate(),
            mine: self.mine,
            system: self.system,
            text: self.text.duplicate(),
            reply_to: self.reply_to.duplicate(),
            reactions,
            thread_count: self.thread_count,
            attachment: self.attachment.duplicate(),
            read_by,
            send_state: self.send_state,
            avatar: self.avatar.duplicate(),
        }
    }
}

/// A copy of a message list with the same plain values.
pub fn copy_messages(v: &Vec<Message>) -> (r: Vec<Message>)
    ensures
        messages_view(r@) == messages_view(v@),
{
    let mut r: Vec<Message> = Vec::new();
    for i in 0..v.len()
        invariant
            r@.len() == i,
            forall|k: int| 0 <= k < i ==> #[trigger] r@[k]@ == v@[k]@,
    {
        r.push(v[i].copy_message());
    }
    assert(messages_view(r@) =~= messages_view(v@));
    r
}

impl Space {
    /// A copy of this space with the same plain values.
    pub fn copy_space(&self) -> (r: Space)
        ensures
            r@ == self@,
    {
        let children = duplicate_all(&self.children);
        Space {
            id: self.id.duplicate(),
            name: self.name.duplicate(),
            avatar: self.avatar.duplicate(),
            members: self.members,
            children,
        }
    }
}

/// A copy of a space list with the same plain values.
pub fn copy_spaces(v: &Vec<Space>) -> (r: Vec<Space>)
    ensures
        spaces_view(r@) == spaces_view(v@),
{
    let mut r: Vec<Space> = Vec::new();
    for i in 0..v.len()
        invariant
            r@.len() == i,
            forall|k: int| 0 <= k < i ==> #[trigger] r@[k]@ == v@[k]@,
    {
        r.push(v[i].copy_space());
    }
    assert(spaces_view(r@) =~= spaces_view(v@));
    r
}

impl VerificationSession {
    /// A copy of this session with the same plain values.
    pub fn copy_session(&self) -> (r: VerificationSession)
        ensures
            r@ == self@,
    {
        VerificationSession {
            subject: self.subject.duplicate(),
            target: self.target.duplicate(),
            state: self.state.duplicate(),
            emojis: duplicate_all(&self.emojis),
        }
    }
}

} // verus!
