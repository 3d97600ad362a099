//! The offline client: an in-memory account seeded with a fixed dataset, so
//! every screen can be exercised without a homeserver. Sending, reacting,
//! threads, profile edits, session management, notification settings, the
//! public directory, joining and leaving, and a scripted verification
//! session all act on this store.

use vstd::prelude::*;

use crate::error::ClientError;
use crate::model::{
    duplicate_all, copy_messages, copy_spaces, messages_view, opt_view, reactions_view,
    spaces_view, strings_view, Attachment, AttachmentKind, Convo, ConvoKind, ConvoView, convos_view, Device, Duplicate, Me,
    Message, MessageView, NotifToggle, Prefs, Presence, PublicRoom, PublicRoomPage, PublicSpace,
    PublicSpacePage, Reaction, ReactionView, SasEmoji, SendState, SessionView, Space, SpaceView,
    ThreadReply, VerificationAction, VerificationSession, VerificationState, VerificationTarget,
};
use crate::store::{
    first_keyed, has_keyed, position_of_key, remove_keyed, without_keyed, Keyed,
    entries_distinct, entry_index, find_entry, has_entry, lemma_entry_index, lemma_store_push,
    lemma_store_update, store_view,
};
use crate::text::{
    chars_of, contains_seq, dec, lowercased, occurs_in, owned, parse_usize, parse_usize_spec,
    push_dec, push_str, string_from_chars, to_lowercase, trim, trim_vec,
};

verus! {

/// Rows per directory page: small, so that searching and "load more" can be
/// exercised on a short fixture list.
pub const MOCK_PAGE_SIZE: usize = 4;

// ----------------------------------------------------------------------
// Seed builders
// ----------------------------------------------------------------------

/// A direct message as seeded: end-to-end encrypted, no avatar.
pub open spec fn dm_view(id: Seq<char>, name: Seq<char>, mxid: Seq<char>, status: Presence, last: Seq<char>, unread: u32) -> ConvoView {
    ConvoView {
        id,
        kind: ConvoKind::Dm,
        name,
        last,
        unread,
        encrypted: true,
        avatar: None,
        mxid: Some(mxid),
        status: Some(status),
        topic: None,
        space: None,
        members: None,
    }
}

/// A room as seeded: in a space, with a topic and a member count.
pub open spec fn room_view(
    id: Seq<char>,
    space: Seq<char>,
    name: Seq<char>,
    topic: Seq<char>,
    members: u32,
    last: Seq<char>,
    unread: u32,
    encrypted: bool,
) -> ConvoView {
    ConvoView {
        id,
        kind: ConvoKind::Room,
        name,
        last,
        unread,
        encrypted,
        avatar: None,
        mxid: None,
        status: None,
        topic: Some(topic),
        space: Some(space),
        members: Some(members),
    }
}

/// A direct-message conversation (always encrypted, no room fields).
pub fn dm(id: &str, name: &str, mxid: &str, status: Presence, last: &str, unread: u32) -> (c: Convo)
    ensures
        c.id@ == id@,
        c.kind == ConvoKind::Dm,
        c.name@ == name@,
        c.last@ == last@,
        c.unread == unread,
        c.encrypted,
        c.avatar is None,
        opt_view(c.mxid) == Some(mxid@),
        c.status == Some(status),
        c.topic is None,
        c.space is None,
        c.members is None,
        c@ == dm_view(id@, name@, mxid@, status, last@, unread),
{
    Convo {
        id: owned(id),
        kind: ConvoKind::Dm,
        name: owned(name),
        last: owned(last),
        unread,
        encrypted: true,
        avatar: None,
        mxid: Some(owned(mxid)),
        status: Some(status),
        topic: None,
        space: None,
        members: None,
    }
}

/// A room conversation grouped under `space` (no DM fields).
pub fn room(
    id: &str,
    space: &str,
    name: &str,
    topic: &str,
    members: u32,
    last: &str,
    unread: u32,
    encrypted: bool,
) -> (c: Convo)
    ensures
        c.id@ == id@,
        c.kind == ConvoKind::Room,
        c.name@ == name@,
        c.last@ == last@,
        c.unread == unread,
        c.encrypted == encrypted,
        c.avatar is None,
        c.mxid is None,
        c.status is None,
        opt_view(c.topic) == Some(topic@),
        opt_view(c.space) == Some(space@),
        c.members == Some(members),
        c@ == room_view(id@, space@, name@, topic@, members, last@, unread, encrypted),
{
    Convo {
        id: owned(id),
        kind: ConvoKind::Room,
        name: owned(name),
        last: owned(last),
        unread,
        encrypted,
        avatar: None,
        mxid: None,
        status: None,
        topic: Some(owned(topic)),
        space: Some(owned(space)),
        members: Some(members),
    }
}

/// A plain received message.
pub fn msg(id: &str, from: &str, time: &str, text: &str) -> (m: Message)
    ensures
        m@ == (MessageView {
            id: id@,
            from: from@,
            time: time@,
            mine: false,
            system: false,
            text: text@,
            reply_to: None,
            reactions: seq![],
            thread_count: 0,
            attachment: None,
            read_by: seq![],
            send_state: SendState::Sent,
            avatar: None,
        }),
{
    let m = Message::new(id, from, time, text);
    assert(reactions_view(m.reactions@) =~= seq![]);
    assert(strings_view(m.read_by@) =~= seq![]);
    m
}

/// `m`, sent by the local user.
pub fn mine(m: Message) -> (r: Message)
    ensures
        r@ == (MessageView { mine: true, ..m@ }),
{
    let mut m = m;
    m.mine = true;
    m
}

/// `m` with one more reaction.
pub fn reacted(m: Message, emoji: &str, count: u32, me: bool) -> (r: Message)
    ensures
        r@ == (MessageView {
            reactions: m@.reactions.push(ReactionView { emoji: emoji@, count, me }),
            ..m@
        }),
{
    let mut m = m;
    let ghost before = m.reactions@;
    m.reactions.push(Reaction { emoji: owned(emoji), count, me });
    assert(reactions_view(m.reactions@) =~= reactions_view(before).push(
        ReactionView { emoji: emoji@, count, me },
    ));
    m
}

/// `m`, replying to the message `id`.
pub fn replying_to(m: Message, id: &str) -> (r: Message)
    ensures
        r@ == (MessageView { reply_to: Some(id@), ..m@ }),
{
    let mut m = m;
    m.reply_to = Some(owned(id));
    m
}

/// `m` with `count` thread replies.
pub fn threaded(m: Message, count: u32) -> (r: Message)
    ensures
        r@ == (MessageView { thread_count: count, ..m@ }),
{
    let mut m = m;
    m.thread_count = count;
    m
}

/// `m`, read by exactly the given people.
pub fn read(m: Message, by: &[&str]) -> (r: Message)
    ensures
        r@ == (MessageView { read_by: by@.map_values(|s: &str| s@), ..m@ }),
{
    let mut m = m;
    let mut readers: Vec<String> = Vec::new();
    for i in 0..by.len()
        invariant
            readers@.len() == i,
            forall|k: int| 0 <= k < i ==> #[trigger] readers@[k]@ == by@[k]@,
    {
        readers.push(owned(by[i]));
    }
    assert(strings_view(readers@) =~= by@.map_values(|s: &str| s@));
    m.read_by = readers;
    m
}

/// A system row at `time` (its id is `sys-` and the time).
pub fn system(time: &str, text: &str) -> (m: Message)
    ensures
        m@ == (MessageView {
            id: "sys-"@ + time@,
            from: seq![],
            time: time@,
            mine: false,
            system: true,
            text: text@,
            reply_to: None,
            reactions: seq![],
            thread_count: 0,
            attachment: None,
            read_by: seq![],
            send_state: SendState::Sent,
            avatar: None,
        }),
{
    let mut idv: Vec<char> = chars_of("sys-");
    push_str(&mut idv, time);
    let id = string_from_chars(idv.as_slice());
    let mut m = msg(id.as_str(), "", time, text);
    proof {
        reveal_strlit("");
        reveal_strlit("sys-");
    }
    assert(m@.id == "sys-"@ + time@);
    assert(m@.from =~= seq![]);
    m.system = true;
    m
}

/// `a` is an attachment of `kind` named `name`, of size `size`, with no
/// media metadata.
pub open spec fn bare_attachment(a: Attachment, kind: AttachmentKind, name: Seq<char>, size: Seq<char>) -> bool {
    &&& a.kind == kind
    &&& a.name@ == name
    &&& a.size@ == size
    &&& a.mxc is None
    &&& a.mime is None
    &&& a.width is None
    &&& a.height is None
    &&& a.thumb_mxc is None
    &&& a.encrypted is None
    &&& a.thumb_encrypted is None
    &&& a.local_path is None
}

/// `m` carrying an attachment with no media metadata.
pub fn with_attachment(m: Message, kind: AttachmentKind, name: &str, size: &str) -> (r: Message)
    ensures
        r.attachment is Some,
        bare_attachment(r.attachment->0, kind, name@, size@),
        r@ == (MessageView { attachment: r.attachment, ..m@ }),
{
    let mut m = m;
    m.attachment = Some(Attachment::new(kind, owned(name), owned(size)));
    m
}

// ----------------------------------------------------------------------
// The store
// ----------------------------------------------------------------------

/// The offline client's whole state.
pub struct MockClient {
    pub me: Me,
    pub spaces: Vec<Space>,
    pub convos: Vec<Convo>,
    /// Messages of each conversation, keyed by conversation id.
    pub messages: Vec<(String, Vec<Message>)>,
    /// Thread replies, keyed by the id of the thread's root message.
    pub threads: Vec<(String, Vec<ThreadReply>)>,
    pub devices: Vec<Device>,
    pub public_rooms: Vec<PublicRoom>,
    pub public_spaces: Vec<PublicSpace>,
    pub notif: Vec<NotifToggle>,
    pub prefs: Prefs,
    /// Counter behind minted message and avatar ids.
    pub next_id: u64,
    /// Whether the UI has attached: verification sessions need it.
    pub bound: bool,
    /// The verification session shown to the UI.
    pub verification: Option<VerificationSession>,
    /// Device whose verified flag a confirmed session sets.
    pub target_device: Option<String>,
}

pub open spec fn message_list_view() -> spec_fn(Vec<Message>) -> Seq<MessageView> {
    |l: Vec<Message>| messages_view(l@)
}

pub open spec fn reply_list_view() -> spec_fn(Vec<ThreadReply>) -> Seq<ThreadReply> {
    |l: Vec<ThreadReply>| l@
}

impl MockClient {
    /// Each conversation and each thread root has at most one entry.
    pub open spec fn wf(&self) -> bool {
        entries_distinct(self.messages@) && entries_distinct(self.threads@)
    }

    /// Conversation id to its messages.
    pub open spec fn message_store(&self) -> Map<Seq<char>, Seq<MessageView>> {
        store_view(self.messages@, message_list_view())
    }

    /// Thread root id to its replies.
    pub open spec fn thread_store(&self) -> Map<Seq<char>, Seq<ThreadReply>> {
        store_view(self.threads@, reply_list_view())
    }

    /// The messages of a conversation (none when it has no entry).
    pub open spec fn messages_in(&self, convo: Seq<char>) -> Seq<MessageView> {
        if self.message_store().contains_key(convo) {
            self.message_store()[convo]
        } else {
            seq![]
        }
    }

    /// The replies of a thread (none when it has no entry).
    pub open spec fn replies_to(&self, root: Seq<char>) -> Seq<ThreadReply> {
        if self.thread_store().contains_key(root) {
            self.thread_store()[root]
        } else {
            seq![]
        }
    }

    pub open spec fn same_account(&self, o: &Self) -> bool {
        &&& self.me == o.me
        &&& self.devices@ == o.devices@
        &&& self.notif@ == o.notif@
        &&& self.prefs == o.prefs
    }

    pub open spec fn same_lists(&self, o: &Self) -> bool {
        &&& spaces_view(self.spaces@) == spaces_view(o.spaces@)
        &&& self.convos@ == o.convos@
    }

    pub open spec fn same_directory(&self, o: &Self) -> bool {
        &&& self.public_rooms@ == o.public_rooms@
        &&& self.public_spaces@ == o.public_spaces@
    }

    pub open spec fn same_verification(&self, o: &Self) -> bool {
        &&& self.bound == o.bound
        &&& opt_session_view(self.verification) == opt_session_view(o.verification)
        &&& self.target_device == o.target_device
    }

    /// The messages of a conversation, oldest first.
    pub fn messages(&self, convo_id: &str) -> (r: Vec<Message>)
        requires
            self.wf(),
        ensures
            messages_view(r@) == self.messages_in(convo_id@),
    {
        match find_entry(&self.messages, convo_id) {
            Some(i) => {
                proof {
                    lemma_entry_index(self.messages@, i as int);
                }
                copy_messages(&self.messages[i].1)
            },
            None => {
                let r: Vec<Message> = Vec::new();
                assert(messages_view(r@) =~= seq![]);
                r
            },
        }
    }

    /// The replies of the thread rooted at `message_id`.
    pub fn thread(&self, _convo_id: &str, message_id: &str) -> (r: Vec<ThreadReply>)
        requires
            self.wf(),
        ensures
            r@ == self.replies_to(message_id@),
    {
        match find_entry(&self.threads, message_id) {
            Some(i) => {
                proof {
                    lemma_entry_index(self.threads@, i as int);
                }
                duplicate_all(&self.threads[i].1)
            },
            None => Vec::new(),
        }
    }

    fn push_message(&mut self, convo_id: &str, m: Message)
        requires
            old(self).wf(),
        ensures
            final(self).wf(),
            final(self).message_store() == old(self).message_store().insert(
                convo_id@,
                old(self).messages_in(convo_id@).push(m@),
            ),
            final(self).threads@ == old(self).threads@,
            final(self).same_account(old(self)),
            final(self).same_lists(old(self)),
            final(self).same_directory(old(self)),
            final(self).same_verification(old(self)),
            final(self).next_id == old(self).next_id,
    {
        let ghost e = self.messages@;
        match find_entry(&self.messages, convo_id) {
            Some(i) => {
                proof {
                    lemma_entry_index(e, i as int);
                }
                let (k, mut list) = self.messages.remove(i);
                let ghost before = list@;
                list.push(m);
                assert(messages_view(list@) =~= messages_view(before).push(m@));
                let ghost entry = (k, list);
                self.messages.insert(i, (k, list));
                proof {
                    assert(self.messages@ =~= e.update(i as int, entry));
                    lemma_store_update(e, i as int, entry, message_list_view());
                }
            },
            None => {
                let list = vec![m];
                assert(messages_view(list@) =~= seq![m@]);
                let entry = (owned(convo_id), list);
                proof {
                    lemma_store_push(e, entry, message_list_view());
                    assert(seq![m@] =~= Seq::<MessageView>::empty().push(m@));
                }
                self.messages.push(entry);
            },
        }
    }

    /// Sends `text` to a conversation: the message is minted with the next
    /// `new-N` id, from the account's display name, time `now`, delivered,
    /// and appended to the conversation.
    pub fn send_message(
        &mut self,
        convo_id: &str,
        text: String,
        attachment: Option<Attachment>,
        reply_to: Option<String>,
    ) -> (m: Message)
        requires
            old(self).wf(),
            old(self).next_id < u64::MAX,
        ensures
            final(self).wf(),
            m@ == (MessageView {
                id: "new-"@ + dec(old(self).next_id as nat),
                from: old(self).me.name@,
                time: "now"@,
                mine: true,
                system: false,
                text: text@,
                reply_to: opt_view(reply_to),
                reactions: seq![],
                thread_count: 0,
                attachment,
                read_by: seq![],
                send_state: SendState::Sent,
                avatar: None,
            }),
            final(self).message_store() == old(self).message_store().insert(
                convo_id@,
                old(self).messages_in(convo_id@).push(m@),
            ),
            final(self).thread_store() == old(self).thread_store(),
            final(self).next_id == old(self).next_id + 1,
            final(self).same_account(old(self)),
            final(self).same_lists(old(self)),
            final(self).same_directory(old(self)),
            final(self).same_verification(old(self)),
    {
        let n = self.next_id;
        self.next_id = n + 1;
        let mut idv: Vec<char> = chars_of("new-");
        push_dec(&mut idv, n);
        let from = self.me.name.duplicate();
        let message = Message {
            id: string_from_chars(idv.as_slice()),
            from,
            time: owned("now"),
            mine: true,
            system: false,
            text,
            reply_to,
            reactions: Vec::new(),
            thread_count: 0,
            attachment,
            read_by: Vec::new(),
            send_state: SendState::Sent,
            avatar: None,
        };
        assert(reactions_view(message.reactions@) =~= seq![]);
        assert(strings_view(message.read_by@) =~= seq![]);
        let copy = message.copy_message();
        self.push_message(convo_id, message);
        copy
    }
}

// ----------------------------------------------------------------------
// Reactions
// ----------------------------------------------------------------------

/// `p` is the first reaction with emoji `e`.
pub open spec fn first_emoji(rs: Seq<ReactionView>, e: Seq<char>, p: int) -> bool {
    &&& 0 <= p < rs.len()
    &&& rs[p].emoji == e
    &&& forall|k: int| 0 <= k < p ==> #[trigger] rs[k].emoji != e
}

/// The local user's reaction `e` toggled: an existing reaction flips the
/// user's vote (count up when adding, down when withdrawing, and gone at
/// zero); a new emoji is added last with the user's single vote.
pub open spec fn toggle_reactions(rs: Seq<ReactionView>, e: Seq<char>) -> Seq<ReactionView> {
    if exists|p: int| first_emoji(rs, e, p) {
        let p = choose|p: int| first_emoji(rs, e, p);
        let r = rs[p];
        let t = if r.me {
            ReactionView { emoji: r.emoji, count: (r.count - 1) as u32, me: false }
        } else {
            ReactionView { emoji: r.emoji, count: (r.count + 1) as u32, me: true }
        };
        if t.count == 0 {
            rs.remove(p)
        } else {
            rs.update(p, t)
        }
    } else {
        rs.push(ReactionView { emoji: e, count: 1, me: true })
    }
}

/// Toggling `e` neither withdraws a vote from a zero count nor overflows one.
pub open spec fn toggle_safe(rs: Seq<ReactionView>, e: Seq<char>) -> bool {
    forall|p: int| #[trigger] first_emoji(rs, e, p) ==> if rs[p].me {
        rs[p].count > 0
    } else {
        rs[p].count < u32::MAX
    }
}

proof fn lemma_first_emoji_unique(rs: Seq<ReactionView>, e: Seq<char>, p: int, q: int)
    requires
        first_emoji(rs, e, p),
        first_emoji(rs, e, q),
    ensures
        p == q,
{
    if p < q {
        assert(rs[p].emoji != e);
    } else if q < p {
        assert(rs[q].emoji != e);
    }
}

/// Toggles the local user's reaction `emoji` in a reaction list.
pub fn toggle_reaction_list(rs: Vec<Reaction>, emoji: &str) -> (r: Vec<Reaction>)
    requires
        toggle_safe(reactions_view(rs@), emoji@),
    ensures
        reactions_view(r@) == toggle_reactions(reactions_view(rs@), emoji@),
{
    let ghost v = reactions_view(rs@);
    let mut rs = rs;
    let mut p: usize = 0;
    while p < rs.len()
        invariant
            0 <= p <= rs@.len(),
            v == reactions_view(rs@),
            forall|k: int| 0 <= k < p ==> #[trigger] v[k].emoji != emoji@,
        ensures
            0 <= p <= rs@.len(),
            v == reactions_view(rs@),
            forall|k: int| 0 <= k < p ==> #[trigger] v[k].emoji != emoji@,
            p < rs@.len() ==> v[p as int].emoji == emoji@,
        decreases rs@.len() - p,
    {
        if crate::text::str_eq(rs[p].emoji.as_str(), emoji) {
            break;
        }
        p = p + 1;
    }
    if p == rs.len() {
        proof {
            assert forall|q: int| !first_emoji(v, emoji@, q) by {
                if first_emoji(v, emoji@, q) {
                    assert(v[q].emoji != emoji@);
                }
            }
        }
        rs.push(Reaction { emoji: owned(emoji), count: 1, me: true });
        assert(reactions_view(rs@) =~= v.push(ReactionView { emoji: emoji@, count: 1, me: true }));
        return rs;
    }
    assert(first_emoji(v, emoji@, p as int));
    proof {
        assert forall|q: int| first_emoji(v, emoji@, q) implies q == p by {
            lemma_first_emoji_unique(v, emoji@, p as int, q);
        }
    }
    let mut x = rs.remove(p);
    if x.me {
        x.count = x.count - 1;
        x.me = false;
    } else {
        x.count = x.count + 1;
        x.me = true;
    }
    if x.count == 0 {
        assert(reactions_view(rs@) =~= v.remove(p as int));
    } else {
        rs.insert(p, x);
        assert(reactions_view(rs@) =~= v.update(p as int, x@));
    }
    rs
}

/// Whether a message list holds a message with id `id`.
pub open spec fn list_has(l: Seq<MessageView>, id: Seq<char>) -> bool {
    exists|j: int| 0 <= j < l.len() && #[trigger] l[j].id == id
}

/// `j` is the first message with id `id`.
pub open spec fn first_message(l: Seq<MessageView>, id: Seq<char>, j: int) -> bool {
    &&& 0 <= j < l.len()
    &&& l[j].id == id
    &&& forall|k: int| 0 <= k < j ==> #[trigger] l[k].id != id
}

/// The first message with id `id`, if any.
fn position_of_message(l: &Vec<Message>, id: &str) -> (r: Option<usize>)
    ensures
        r matches Some(j) ==> first_message(messages_view(l@), id@, j as int),
        r is None ==> forall|j: int| !first_message(messages_view(l@), id@, j),
        r is None ==> !list_has(messages_view(l@), id@),
{
    let ghost v = messages_view(l@);
    let mut j: usize = 0;
    while j < l.len()
        invariant
            0 <= j <= l@.len(),
            v == messages_view(l@),
            forall|k: int| 0 <= k < j ==> #[trigger] v[k].id != id@,
        decreases l@.len() - j,
    {
        if crate::text::str_eq(l[j].id.as_str(), id) {
            return Some(j);
        }
        j = j + 1;
    }
    proof {
        assert forall|q: int| !first_message(v, id@, q) by {
            if first_message(v, id@, q) {
                assert(v[q].id != id@);
            }
        }
    }
    None
}

proof fn lemma_first_message_unique(l: Seq<MessageView>, id: Seq<char>, p: int, q: int)
    requires
        first_message(l, id, p),
        first_message(l, id, q),
    ensures
        p == q,
{
    if p < q {
        assert(l[p].id != id);
    } else if q < p {
        assert(l[q].id != id);
    }
}

impl MockClient {
    /// Whether the message a reaction would land on can take the toggle.
    pub open spec fn react_safe(&self, convo: Seq<char>, id: Seq<char>, e: Seq<char>) -> bool {
        forall|j: int| #[trigger] first_message(self.messages_in(convo), id, j)
            ==> toggle_safe(self.messages_in(convo)[j].reactions, e)
    }

    /// Whether the conversation holds a message with that id.
    pub open spec fn has_message(&self, convo: Seq<char>, id: Seq<char>) -> bool {
        exists|j: int| first_message(self.messages_in(convo), id, j)
    }

    pub open spec fn message_pos(&self, convo: Seq<char>, id: Seq<char>) -> int {
        choose|j: int| first_message(self.messages_in(convo), id, j)
    }

    /// The reactions of the target message after toggling `e` on it.
    pub open spec fn reactions_after(&self, convo: Seq<char>, id: Seq<char>, e: Seq<char>) -> Seq<ReactionView> {
        toggle_reactions(self.messages_in(convo)[self.message_pos(convo, id)].reactions, e)
    }

    /// The message store after toggling `e` on the target message.
    pub open spec fn store_after_react(&self, convo: Seq<char>, id: Seq<char>, e: Seq<char>) -> Map<Seq<char>, Seq<MessageView>> {
        let l = self.messages_in(convo);
        let j = self.message_pos(convo, id);
        self.message_store().insert(
            convo,
            l.update(j, MessageView { reactions: self.reactions_after(convo, id, e), ..l[j] }),
        )
    }

    /// Toggles the local user's reaction `emoji` on a message and returns the
    /// message's reactions; a message that is not there is left alone and
    /// the answer is empty.
    pub fn react(&mut self, convo_id: &str, message_id: &str, emoji: &str) -> (r: Vec<Reaction>)
        requires
            old(self).wf(),
            old(self).react_safe(convo_id@, message_id@, emoji@),
        ensures
            final(self).wf(),
            old(self).has_message(convo_id@, message_id@) ==> {
                &&& reactions_view(r@) == old(self).reactions_after(convo_id@, message_id@, emoji@)
                &&& final(self).message_store() == old(self).store_after_react(convo_id@, message_id@, emoji@)
            },
            !old(self).has_message(convo_id@, message_id@) ==> {
                &&& r@.len() == 0
                &&& final(self).message_store() == old(self).message_store()
            },
            final(self).thread_store() == old(self).thread_store(),
            final(self).next_id == old(self).next_id,
            final(self).same_account(old(self)),
            final(self).same_lists(old(self)),
            final(self).same_directory(old(self)),
            final(self).same_verification(old(self)),
    {
        let ghost e = self.messages@;
        let ghost l = self.messages_in(convo_id@);
        let i = match find_entry(&self.messages, convo_id) {
            Some(i) => i,
            None => {
                proof {
                    assert(l =~= seq![]);
                }
                return Vec::new();
            },
        };
        proof {
            lemma_entry_index(e, i as int);
            assert(l == messages_view(e[i as int].1@));
        }
        let j = match position_of_message(&self.messages[i].1, message_id) {
            Some(j) => j,
            None => {
                return Vec::new();
            },
        };
        proof {
            assert forall|q: int| first_message(l, message_id@, q) implies q == j by {
                lemma_first_message_unique(l, message_id@, j as int, q);
            }
            assert(self.message_pos(convo_id@, message_id@) == j);
        }
        let (k, mut list) = self.messages.remove(i);
        let ghost before = list@;
        let mut m = list.remove(j);
        let ghost mv = m@;
        let mut rs: Vec<Reaction> = Vec::new();
        std::mem::swap(&mut rs, &mut m.reactions);
        assert(reactions_view(rs@) == mv.reactions);
        m.reactions = toggle_reaction_list(rs, emoji);
        let out = duplicate_all(&m.reactions);
        list.insert(j, m);
        assert(messages_view(list@) =~= l.update(
            j as int,
            MessageView { reactions: old(self).reactions_after(convo_id@, message_id@, emoji@), ..l[j as int] },
        ));
        let ghost entry = (k, list);
        self.messages.insert(i, (k, list));
        proof {
            assert(self.messages@ =~= e.update(i as int, entry));
            lemma_store_update(e, i as int, entry, message_list_view());
        }
        out
    }
}

/// Reacting twice with the same emoji undoes the first reaction: the
/// reactions come back as they were, as a collection; and in their order
/// too unless the first reaction withdrew the user's only vote from
/// before the end of the list (it comes back at the end). It does not hold
/// where the list has that emoji twice, or where its count is zero.
pub proof fn law_react_twice_restores(rs: Seq<ReactionView>, e: Seq<char>)
    requires
        forall|p: int, q: int|
            0 <= p < rs.len() && 0 <= q < rs.len() && #[trigger] rs[p].emoji == e
                && #[trigger] rs[q].emoji == e ==> p == q,
        forall|p: int| 0 <= p < rs.len() && #[trigger] rs[p].emoji == e ==> {
            &&& rs[p].count >= 1
            &&& !rs[p].me ==> rs[p].count < u32::MAX
        },
    ensures
        toggle_safe(rs, e),
        toggle_safe(toggle_reactions(rs, e), e),
        toggle_reactions(toggle_reactions(rs, e), e).to_multiset() == rs.to_multiset(),
        (forall|p: int| 0 <= p < rs.len() && #[trigger] rs[p].emoji == e && rs[p].me && rs[p].count == 1 ==> p == rs.len() - 1)
            ==> toggle_reactions(toggle_reactions(rs, e), e) == rs,
{
    let t = toggle_reactions(rs, e);
    if exists|p: int| first_emoji(rs, e, p) {
        let p = choose|p: int| first_emoji(rs, e, p);
        assert forall|q: int| first_emoji(rs, e, q) implies q == p by {
            lemma_first_emoji_unique(rs, e, p, q);
        }
        let r = rs[p];
        if r.me && r.count == 1 {
            assert(t == rs.remove(p));
            assert forall|q: int| !first_emoji(t, e, q) by {
                if first_emoji(t, e, q) {
                    if q < p {
                        assert(t[q] == rs[q]);
                    } else {
                        assert(t[q] == rs[q + 1]);
                    }
                }
            }
            assert(toggle_reactions(t, e) == t.push(ReactionView { emoji: e, count: 1, me: true }));
            assert(r == ReactionView { emoji: e, count: 1, me: true });
            vstd::seq_lib::to_multiset_remove(rs, p);
            vstd::seq_lib::to_multiset_build(t, r);
            vstd::seq_lib::to_multiset_contains(rs, r);
            assert(rs.contains(r));
            assert(t.push(r).to_multiset() =~= rs.to_multiset());
            if p == rs.len() - 1 {
                assert(t =~= rs.drop_last());
                assert(toggle_reactions(t, e) =~= rs);
            }
        } else {
            assert(first_emoji(t, e, p));
            assert forall|q: int| first_emoji(t, e, q) implies q == p by {
                lemma_first_emoji_unique(t, e, p, q);
            }
            assert(toggle_reactions(t, e) =~= rs);
        }
    } else {
        let n = rs.len() as int;
        assert forall|k: int| 0 <= k < n implies #[trigger] rs[k].emoji != e by {
            if rs[k].emoji == e {
                assert forall|j: int| 0 <= j < k implies #[trigger] rs[j].emoji != e by {
                    if rs[j].emoji == e {
                        assert(rs[j].emoji == e && rs[k].emoji == e);
                    }
                }
                assert(first_emoji(rs, e, k));
            }
        }
        assert(t[n].emoji == e);
        assert forall|k: int| 0 <= k < n implies #[trigger] t[k].emoji != e by {
            assert(t[k] == rs[k]);
        }
        assert(first_emoji(t, e, n));
        assert forall|q: int| first_emoji(t, e, q) implies q == n by {
            lemma_first_emoji_unique(t, e, n, q);
        }
        assert(toggle_reactions(t, e) =~= rs);
    }
}

// ----------------------------------------------------------------------
// Threads
// ----------------------------------------------------------------------

/// `i` is the first conversation entry whose messages include `id`.
pub open spec fn first_root(e: Seq<(String, Vec<Message>)>, id: Seq<char>, i: int) -> bool {
    &&& 0 <= i < e.len()
    &&& list_has(messages_view(e[i].1@), id)
    &&& forall|k: int| 0 <= k < i ==> !list_has(messages_view(#[trigger] e[k].1@), id)
}

impl MockClient {
    /// Whether some conversation holds the thread's root message.
    pub open spec fn has_root(&self, id: Seq<char>) -> bool {
        exists|i: int| first_root(self.messages@, id, i)
    }

    /// The conversation entry holding the root (the first one, in store
    /// order, when the id occurs in several).
    pub open spec fn root_entry(&self, id: Seq<char>) -> int {
        choose|i: int| first_root(self.messages@, id, i)
    }

    /// The conversation holding the root.
    pub open spec fn root_convo(&self, id: Seq<char>) -> Seq<char> {
        self.messages@[self.root_entry(id)].0@
    }

    /// The root message's position in its conversation.
    pub open spec fn root_pos(&self, id: Seq<char>) -> int {
        choose|j: int| first_message(self.messages_in(self.root_convo(id)), id, j)
    }

    /// The root message.
    pub open spec fn root_message(&self, id: Seq<char>) -> MessageView {
        self.messages_in(self.root_convo(id))[self.root_pos(id)]
    }

    /// The message store once the root's reply count has gone up by one.
    pub open spec fn store_after_reply(&self, id: Seq<char>) -> Map<Seq<char>, Seq<MessageView>> {
        let c = self.root_convo(id);
        let m = self.root_message(id);
        self.message_store().insert(
            c,
            self.messages_in(c).update(
                self.root_pos(id),
                MessageView { thread_count: (m.thread_count + 1) as u32, ..m },
            ),
        )
    }

    fn push_reply(&mut self, root: &str, reply: ThreadReply)
        requires
            old(self).wf(),
        ensures
            final(self).wf(),
            final(self).thread_store() == old(self).thread_store().insert(
                root@,
                old(self).replies_to(root@).push(reply),
            ),
            final(self).messages@ == old(self).messages@,
            final(self).same_account(old(self)),
            final(self).same_lists(old(self)),
            final(self).same_directory(old(self)),
            final(self).same_verification(old(self)),
            final(self).next_id == old(self).next_id,
    {
        let ghost e = self.threads@;
        match find_entry(&self.threads, root) {
            Some(i) => {
                proof {
                    lemma_entry_index(e, i as int);
                }
                let (k, mut list) = self.threads.remove(i);
                list.push(reply);
                let ghost entry = (k, list);
                self.threads.insert(i, (k, list));
                proof {
                    assert(self.threads@ =~= e.update(i as int, entry));
                    lemma_store_update(e, i as int, entry, reply_list_view());
                }
            },
            None => {
                let list = vec![reply];
                let entry = (owned(root), list);
                proof {
                    lemma_store_push(e, entry, reply_list_view());
                    assert(list@ =~= Seq::<ThreadReply>::empty().push(reply));
                }
                self.threads.push(entry);
            },
        }
    }

    /// Posts `text` in the thread rooted at `message_id`: the reply (from
    /// the account's display name, time `now`) is appended to the thread and
    /// the root message's reply count goes up by one.
    pub fn send_thread_reply(&mut self, _convo_id: &str, message_id: &str, text: String) -> (r: Result<ThreadReply, ClientError>)
        requires
            old(self).wf(),
            old(self).has_root(message_id@) ==> old(self).root_message(message_id@).thread_count < u32::MAX,
        ensures
            final(self).wf(),
            r matches Ok(reply) && {
                &&& reply.from@ == old(self).me.name@
                &&& reply.time@ == "now"@
                &&& reply.mine
                &&& reply.text == text
                &&& final(self).thread_store() == old(self).thread_store().insert(
                    message_id@,
                    old(self).replies_to(message_id@).push(reply),
                )
            },
            old(self).has_root(message_id@) ==> final(self).message_store() == old(self).store_after_reply(message_id@),
            !old(self).has_root(message_id@) ==> final(self).message_store() == old(self).message_store(),
            final(self).next_id == old(self).next_id,
            final(self).same_account(old(self)),
            final(self).same_lists(old(self)),
            final(self).same_directory(old(self)),
            final(self).same_verification(old(self)),
    {
        let reply = ThreadReply { from: self.me.name.duplicate(), time: owned("now"), mine: true, text };
        let out = reply.duplicate();
        self.push_reply(message_id, reply);
        let ghost e = self.messages@;
        let ghost s0 = *self;
        let mut i: usize = 0;
        let mut found: Option<usize> = None;
        while i < self.messages.len()
            invariant_except_break
                found is None,
            invariant
                0 <= i <= e.len(),
                self.messages@ == e,
                *self == s0,
                forall|k: int| 0 <= k < i ==> !list_has(messages_view(#[trigger] e[k].1@), message_id@),
            ensures
                self.messages@ == e,
                *self == s0,
                found matches Some(j) ==> i < e.len() && first_message(messages_view(e[i as int].1@), message_id@, j as int),
                found matches Some(j) ==> forall|k: int| 0 <= k < i ==> !list_has(messages_view(#[trigger] e[k].1@), message_id@),
                found is None ==> forall|k: int| 0 <= k < e.len() ==> !list_has(messages_view(#[trigger] e[k].1@), message_id@),
            decreases e.len() - i,
        {
            match position_of_message(&self.messages[i].1, message_id) {
                Some(j) => {
                    found = Some(j);
                    break;
                },
                None => {},
            }
            i = i + 1;
        }
        match found {
            Some(j) => {
                proof {
                    let v = messages_view(e[i as int].1@);
                    assert(v[j as int].id == message_id@);
                    assert(list_has(v, message_id@));
                    assert(first_root(e, message_id@, i as int));
                    assert forall|q: int| first_root(e, message_id@, q) implies q == i by {
                        if q < i {
                            assert(!list_has(messages_view(e[q].1@), message_id@));
                        } else if q > i {
                            assert(!list_has(messages_view(e[i as int].1@), message_id@));
                        }
                    }
                    lemma_entry_index(e, i as int);
                    assert(s0.root_entry(message_id@) == i);
                    assert(s0.messages_in(s0.root_convo(message_id@)) == v);
                    assert forall|q: int| first_message(v, message_id@, q) implies q == j by {
                        lemma_first_message_unique(v, message_id@, j as int, q);
                    }
                    assert(s0.root_pos(message_id@) == j);
                }
                let (k, mut list) = self.messages.remove(i);
                let mut m = list.remove(j);
                m.thread_count = m.thread_count + 1;
                list.insert(j, m);
                let ghost entry = (k, list);
                self.messages.insert(i, (k, list));
                proof {
                    let v = messages_view(e[i as int].1@);
                    assert(messages_view(list@) =~= v.update(
                        j as int,
                        MessageView { thread_count: (v[j as int].thread_count + 1) as u32, ..v[j as int] },
                    ));
                    assert(self.messages@ =~= e.update(i as int, entry));
                    lemma_store_update(e, i as int, entry, message_list_view());
                }
            },
            None => {
                proof {
                    assert forall|q: int| !first_root(e, message_id@, q) by {
                        if first_root(e, message_id@, q) {
                            assert(!list_has(messages_view(e[q].1@), message_id@));
                        }
                    }
                }
            },
        }
        Ok(out)
    }
}

// ----------------------------------------------------------------------
// Account
// ----------------------------------------------------------------------

impl MockClient {
    /// Renames the account; a name that is empty once trimmed is refused.
    pub fn set_display_name(&mut self, name: String) -> (r: Result<Me, ClientError>)
        ensures
            crate::text::trim(name@).len() == 0 ==> {
                &&& r matches Err(err) && err.kind == crate::error::ClientErrorKind::Invalid
                    && err.message@ == "Display name cannot be empty."@
                &&& *final(self) == *old(self)
            },
            crate::text::trim(name@).len() > 0 ==> {
                &&& final(self).me == (Me { name, ..old(self).me })
                &&& r == Ok::<Me, ClientError>(final(self).me)
                &&& final(self).devices == old(self).devices
                &&& final(self).notif == old(self).notif
                &&& final(self).prefs == old(self).prefs
                &&& final(self).messages == old(self).messages
                &&& final(self).threads == old(self).threads
                &&& final(self).spaces == old(self).spaces
                &&& final(self).convos == old(self).convos
                &&& final(self).same_directory(old(self))
                &&& final(self).same_verification(old(self))
                &&& final(self).next_id == old(self).next_id
            },
    {
        let v = chars_of(name.as_str());
        let t = crate::text::trim_vec(&v);
        if t.len() == 0 {
            return Err(ClientError::invalid("Display name cannot be empty."));
        }
        self.me.name = name;
        Ok(self.me.duplicate())
    }

    /// Gives the account a freshly minted avatar id, `mock://avatar-N`.
    pub fn set_avatar(&mut self, _path: String) -> (r: Result<Me, ClientError>)
        requires
            old(self).next_id < u64::MAX,
        ensures
            final(self).me.name == old(self).me.name,
            final(self).me.id == old(self).me.id,
            opt_view(final(self).me.avatar) == Some("mock://avatar-"@ + dec(old(self).next_id as nat)),
            final(self).next_id == old(self).next_id + 1,
            r == Ok::<Me, ClientError>(final(self).me),
            final(self).devices == old(self).devices,
            final(self).notif == old(self).notif,
            final(self).prefs == old(self).prefs,
            final(self).messages == old(self).messages,
            final(self).threads == old(self).threads,
            final(self).spaces == old(self).spaces,
            final(self).convos == old(self).convos,
            final(self).same_directory(old(self)),
            final(self).same_verification(old(self)),
    {
        let n = self.next_id;
        self.next_id = n + 1;
        let mut v: Vec<char> = chars_of("mock://avatar-");
        push_dec(&mut v, n);
        self.me.avatar = Some(string_from_chars(v.as_slice()));
        Ok(self.me.duplicate())
    }
}

// ----------------------------------------------------------------------
// Sessions, notification settings, preferences
// ----------------------------------------------------------------------

impl MockClient {
    pub open spec fn same_except_devices(&self, o: &Self) -> bool {
        &&& self.me == o.me
        &&& self.notif == o.notif
        &&& self.prefs == o.prefs
        &&& self.messages == o.messages
        &&& self.threads == o.threads
        &&& self.spaces == o.spaces
        &&& self.convos == o.convos
        &&& self.public_rooms == o.public_rooms
        &&& self.public_spaces == o.public_spaces
        &&& self.next_id == o.next_id
        &&& self.bound == o.bound
        &&& self.verification == o.verification
        &&& self.target_device == o.target_device
    }

    /// Renames the first session with that id; an unknown id is refused.
    pub fn rename_device(&mut self, device_id: String, name: String) -> (r: Result<(), ClientError>)
        ensures
            final(self).same_except_devices(old(self)),
            !has_keyed(old(self).devices@, device_id@) ==> {
                &&& r matches Err(err) && err.kind == crate::error::ClientErrorKind::Invalid
                    && err.message@ == "No such session."@
                &&& final(self).devices@ == old(self).devices@
            },
            has_keyed(old(self).devices@, device_id@) ==> {
                &&& r is Ok
                &&& exists|i: int| #[trigger] first_keyed(old(self).devices@, device_id@, i)
                    && final(self).devices@ == old(self).devices@.update(
                    i,
                    Device { name, ..old(self).devices@[i] },
                )
            },
    {
        match position_of_key(&self.devices, device_id.as_str()) {
            Some(i) => {
                let mut d = self.devices.remove(i);
                d.name = name;
                self.devices.insert(i, d);
                assert(self.devices@ =~= old(self).devices@.update(i as int, d));
                assert(first_keyed(old(self).devices@, device_id@, i as int));
                Ok(())
            },
            None => Err(ClientError::invalid("No such session.")),
        }
    }

    /// Whether `id` names the session this client runs as.
    pub open spec fn is_current_device(&self, id: Seq<char>) -> bool {
        exists|i: int| 0 <= i < self.devices@.len() && #[trigger] self.devices@[i].id@ == id
            && self.devices@[i].current
    }

    /// Signs a session out. The current session is refused (the account
    /// signs out instead), as is an unknown id.
    pub fn delete_device(&mut self, device_id: String, _password: String) -> (r: Result<(), ClientError>)
        ensures
            final(self).same_except_devices(old(self)),
            old(self).is_current_device(device_id@) ==> {
                &&& r matches Err(err) && err.kind == crate::error::ClientErrorKind::Invalid
                    && err.message@ == "Sign out instead of deleting this session."@
                &&& final(self).devices@ == old(self).devices@
            },
            !old(self).is_current_device(device_id@) && !has_keyed(old(self).devices@, device_id@) ==> {
                &&& r matches Err(err) && err.kind == crate::error::ClientErrorKind::Invalid
                    && err.message@ == "No such session."@
                &&& final(self).devices@ == old(self).devices@
            },
            !old(self).is_current_device(device_id@) && has_keyed(old(self).devices@, device_id@) ==> {
                &&& r is Ok
                &&& final(self).devices@ == without_keyed(old(self).devices@, device_id@)
            },
    {
        let mut i: usize = 0;
        while i < self.devices.len()
            invariant
                0 <= i <= self.devices@.len(),
                *self == *old(self),
                forall|k: int| 0 <= k < i ==> !(#[trigger] self.devices@[k].id@ == device_id@ && self.devices@[k].current),
            decreases self.devices@.len() - i,
        {
            if self.devices[i].current && crate::text::str_eq(self.devices[i].id.as_str(), device_id.as_str()) {
                return Err(ClientError::invalid("Sign out instead of deleting this session."));
            }
            i = i + 1;
        }
        if position_of_key(&self.devices, device_id.as_str()).is_none() {
            return Err(ClientError::invalid("No such session."));
        }
        remove_keyed(&mut self.devices, device_id.as_str());
        Ok(())
    }

    /// The account's sessions.
    pub fn devices(&self) -> (r: Vec<Device>)
        ensures
            r@ == self.devices@,
    {
        duplicate_all(&self.devices)
    }

    /// The notification toggles as stored.
    pub fn notification_rules(&self) -> (r: Result<Vec<NotifToggle>, ClientError>)
        ensures
            r matches Ok(v) && v@ == self.notif@,
    {
        Ok(duplicate_all(&self.notif))
    }

    /// Sets one notification toggle and returns them all; an unknown toggle
    /// is refused.
    pub fn set_notification_rule(&mut self, toggle_id: String, enabled: bool) -> (r: Result<Vec<NotifToggle>, ClientError>)
        ensures
            final(self).me == old(self).me,
            final(self).devices == old(self).devices,
            final(self).prefs == old(self).prefs,
            final(self).messages == old(self).messages,
            final(self).threads == old(self).threads,
            final(self).spaces == old(self).spaces,
            final(self).convos == old(self).convos,
            final(self).same_directory(old(self)),
            final(self).same_verification(old(self)),
            final(self).next_id == old(self).next_id,
            !has_keyed(old(self).notif@, toggle_id@) ==> {
                &&& r matches Err(err) && err.kind == crate::error::ClientErrorKind::Invalid
                    && err.message@ == "Unknown notification setting."@
                &&& final(self).notif@ == old(self).notif@
            },
            has_keyed(old(self).notif@, toggle_id@) ==> {
                &&& r matches Ok(v) && v@ == final(self).notif@
                &&& exists|i: int| #[trigger] first_keyed(old(self).notif@, toggle_id@, i)
                    && final(self).notif@ == old(self).notif@.update(
                    i,
                    NotifToggle { enabled, ..old(self).notif@[i] },
                )
            },
    {
        match position_of_key(&self.notif, toggle_id.as_str()) {
            Some(i) => {
                let mut t = self.notif.remove(i);
                t.enabled = enabled;
                self.notif.insert(i, t);
                assert(self.notif@ =~= old(self).notif@.update(i as int, t));
                assert(first_keyed(old(self).notif@, toggle_id@, i as int));
                Ok(duplicate_all(&self.notif))
            },
            None => Err(ClientError::invalid("Unknown notification setting.")),
        }
    }

    /// The stored preferences.
    pub fn prefs(&self) -> (r: Prefs)
        ensures
            r == self.prefs,
    {
        self.prefs.duplicate()
    }

    /// Replaces the stored preferences.
    pub fn set_prefs(&mut self, prefs: Prefs) -> (r: Result<(), ClientError>)
        ensures
            r is Ok,
            *final(self) == (MockClient { prefs, ..*old(self) }),
    {
        self.prefs = prefs;
        Ok(())
    }
}

// ----------------------------------------------------------------------
// Verification
// ----------------------------------------------------------------------

/// The scripted short-auth string: the same seven emojis every time.
pub open spec fn mock_emojis_spec() -> Seq<(Seq<char>, Seq<char>)> {
    seq![
        ("🐱"@, "Cat"@),
        ("🚀"@, "Rocket"@),
        ("🎩"@, "Top hat"@),
        ("🔑"@, "Key"@),
        ("🍕"@, "Pizza"@),
        ("🌋"@, "Volcano"@),
        ("🌊"@, "Wave"@),
    ]
}

pub open spec fn emoji_pairs(v: Seq<SasEmoji>) -> Seq<(Seq<char>, Seq<char>)> {
    v.map_values(|e: SasEmoji| (e.symbol@, e.description@))
}

fn sas(symbol: &str, description: &str) -> (e: SasEmoji)
    ensures
        e.symbol@ == symbol@,
        e.description@ == description@,
{
    SasEmoji { symbol: owned(symbol), description: owned(description) }
}

/// The scripted short-auth string.
pub fn mock_emojis() -> (v: Vec<SasEmoji>)
    ensures
        emoji_pairs(v@) == mock_emojis_spec(),
{
    let v = vec![
        sas("🐱", "Cat"),
        sas("🚀", "Rocket"),
        sas("🎩", "Top hat"),
        sas("🔑", "Key"),
        sas("🍕", "Pizza"),
        sas("🌋", "Volcano"),
        sas("🌊", "Wave"),
    ];
    assert(emoji_pairs(v@) =~= mock_emojis_spec());
    v
}

/// The name of the first session with that id, or nothing.
pub open spec fn device_name_or_empty(devices: Seq<Device>, id: Seq<char>) -> Seq<char> {
    if has_keyed(devices, id) {
        devices[choose|i: int| first_keyed(devices, id, i)].name@
    } else {
        seq![]
    }
}

impl MockClient {
    /// Marks the UI as attached: from now on verification sessions are shown.
    pub fn bind_state(&mut self)
        ensures
            *final(self) == (MockClient { bound: true, ..*old(self) }),
    {
        self.bound = true;
    }

    /// Starts the scripted verification session: it shows the emojis at
    /// once. A device target also becomes the device a confirmation marks
    /// verified. Nothing happens before the UI is attached.
    pub fn start_verification(&mut self, target: VerificationTarget)
        ensures
            !old(self).bound ==> *final(self) == *old(self),
            old(self).bound ==> {
                &&& final(self).verification matches Some(sess) && {
                    &&& sess.target == target
                    &&& sess.state == VerificationState::EmojisShown
                    &&& emoji_pairs(sess.emojis@) == mock_emojis_spec()
                    &&& sess.subject@ == match target {
                        VerificationTarget::Device(id) => device_name_or_empty(old(self).devices@, id@),
                        VerificationTarget::User(_) => Seq::<char>::empty(),
                    }
                }
                &&& final(self).target_device == match target {
                    VerificationTarget::Device(id) => Some(id),
                    VerificationTarget::User(_) => old(self).target_device,
                }
                &&& *final(self) == (MockClient {
                    verification: final(self).verification,
                    target_device: final(self).target_device,
                    ..*old(self)
                })
            },
    {
        if !self.bound {
            return;
        }
        let subject = match &target {
            VerificationTarget::Device(id) => {
                match position_of_key(&self.devices, id.as_str()) {
                    Some(i) => {
                        proof {
                            assert forall|q: int| first_keyed(self.devices@, id@, q) implies q == i by {
                                if q < i {
                                    assert(self.devices@[q].key_view() != id@);
                                } else if q > i {
                                    assert(self.devices@[i as int].key_view() != id@);
                                }
                            }
                        }
                        self.devices[i].name.duplicate()
                    },
                    None => String::new(),
                }
            },
            VerificationTarget::User(_) => String::new(),
        };
        match &target {
            VerificationTarget::Device(id) => {
                self.target_device = Some(id.duplicate());
            },
            VerificationTarget::User(_) => {},
        }
        self.verification = Some(VerificationSession {
            subject,
            target,
            state: VerificationState::EmojisShown,
            emojis: mock_emojis(),
        });
    }

    /// Applies the user's decision to the running session: a confirmation
    /// completes it and marks the target device verified; a mismatch or a
    /// cancel ends it. Nothing happens without a session or before the UI
    /// is attached.
    pub fn verification_action(&mut self, action: VerificationAction)
        ensures
            !old(self).bound || old(self).verification is None ==> *final(self) == *old(self),
            old(self).bound && old(self).verification is Some ==> {
                let sess = old(self).verification->0;
                &&& final(self).verification matches Some(now) && now@ == (SessionView {
                    state: if action == VerificationAction::Confirm {
                        VerificationState::Done
                    } else {
                        VerificationState::Cancelled
                    },
                    ..sess@
                })
                &&& final(self).devices@ == if action == VerificationAction::Confirm
                    && old(self).target_device is Some && has_keyed(
                    old(self).devices@,
                    old(self).target_device->0@,
                ) {
                    let id = old(self).target_device->0@;
                    let i = choose|i: int| first_keyed(old(self).devices@, id, i);
                    old(self).devices@.update(i, Device { verified: true, ..old(self).devices@[i] })
                } else {
                    old(self).devices@
                }
                &&& *final(self) == (MockClient {
                    verification: final(self).verification,
                    devices: final(self).devices,
                    ..*old(self)
                })
            },
    {
        if !self.bound {
            return;
        }
        let mut session = match &self.verification {
            Some(s) => s.copy_session(),
            None => {
                return;
            },
        };
        match action {
            VerificationAction::Confirm => {
                session.state = VerificationState::Done;
                match &self.target_device {
                    Some(id) => {
                        match position_of_key(&self.devices, id.as_str()) {
                            Some(i) => {
                                proof {
                                    assert forall|q: int| first_keyed(self.devices@, id@, q) implies q == i by {
                                        if q < i {
                                            assert(self.devices@[q].key_view() != id@);
                                        } else if q > i {
                                            assert(self.devices@[i as int].key_view() != id@);
                                        }
                                    }
                                }
                                let mut d = self.devices.remove(i);
                                d.verified = true;
                                self.devices.insert(i, d);
                                assert(self.devices@ =~= old(self).devices@.update(i as int, d));
                            },
                            None => {},
                        }
                    },
                    None => {},
                }
            },
            VerificationAction::Mismatch | VerificationAction::Cancel => {
                session.state = VerificationState::Cancelled;
            },
        }
        self.verification = Some(session);
    }
}

// ----------------------------------------------------------------------
// Public directory
// ----------------------------------------------------------------------

/// A row of the public directory, searched by name and topic.
pub trait DirectoryEntry: Duplicate {
    spec fn name_view(&self) -> Seq<char>;

    spec fn topic_view(&self) -> Seq<char>;

    fn name(&self) -> (r: &String)
        ensures
            r@ == self.name_view(),
    ;

    fn topic(&self) -> (r: &String)
        ensures
            r@ == self.topic_view(),
    ;
}

impl DirectoryEntry for PublicRoom {
    open spec fn name_view(&self) -> Seq<char> { self.name@ }

    open spec fn topic_view(&self) -> Seq<char> { self.topic@ }

    fn name(&self) -> (r: &String) { &self.name }

    fn topic(&self) -> (r: &String) { &self.topic }
}

impl DirectoryEntry for PublicSpace {
    open spec fn name_view(&self) -> Seq<char> { self.name@ }

    open spec fn topic_view(&self) -> Seq<char> { self.topic@ }

    fn name(&self) -> (r: &String) { &self.name }

    fn topic(&self) -> (r: &String) { &self.topic }
}

/// The search key of a query: trimmed, then lowercased.
pub open spec fn query_key(query: Seq<char>) -> Seq<char> {
    lowercased(trim(query))
}

/// A row matches a (nonempty) key when its lowercased name or topic
/// contains it.
pub open spec fn directory_match<T: DirectoryEntry>(x: T, key: Seq<char>) -> bool {
    occurs_in(lowercased(x.name_view()), key) || occurs_in(lowercased(x.topic_view()), key)
}

/// The rows a query selects, in order: all of them for a blank query.
pub open spec fn directory_rows<T: DirectoryEntry>(items: Seq<T>, query: Seq<char>) -> Seq<T> {
    let key = query_key(query);
    if key.len() == 0 {
        items
    } else {
        items.filter(|x: T| directory_match(x, key))
    }
}

/// Case-insensitive substring search over name and topic.
pub fn filter_directory<T: DirectoryEntry>(items: &Vec<T>, query: &str) -> (r: Vec<T>)
    ensures
        r@ == directory_rows(items@, query@),
{
    let trimmed = trim_vec(&chars_of(query));
    let key_string = to_lowercase(string_from_chars(trimmed.as_slice()).as_str());
    let key = chars_of(key_string.as_str());
    if key.len() == 0 {
        return duplicate_all(items);
    }
    let ghost pred = |x: T| directory_match(x, query_key(query@));
    let mut r: Vec<T> = Vec::new();
    for i in 0..items.len()
        invariant
            key@ == query_key(query@),
            key@.len() > 0,
            pred == (|x: T| directory_match(x, query_key(query@))),
            r@ == items@.take(i as int).filter(pred),
    {
        let x = &items[i];
        let name = chars_of(to_lowercase(x.name().as_str()).as_str());
        let topic = chars_of(to_lowercase(x.topic().as_str()).as_str());
        let hit = contains_seq(&name, &key) || contains_seq(&topic, &key);
        proof {
            assert(items@.take(i + 1).drop_last() =~= items@.take(i as int));
            assert(items@.take(i + 1).last() == *x);
            reveal(Seq::filter);
        }
        if hit {
            r.push(x.duplicate());
        }
    }
    assert(items@.take(items@.len() as int) =~= items@);
    r
}

/// Where a page starts: the offset the token spells, or the first row
/// without a readable token, and never past the end.
pub open spec fn page_start(len: nat, token: Option<Seq<char>>) -> nat {
    let s = match token {
        Some(t) => match parse_usize_spec(t) {
            Some(n) => n,
            None => 0,
        },
        None => 0,
    };
    if s < len { s } else { len }
}

/// Where a page that starts at `start` ends.
pub open spec fn page_end(len: nat, start: nat) -> nat {
    if start + MOCK_PAGE_SIZE < len { (start + MOCK_PAGE_SIZE) as nat } else { len }
}

/// One page of `rows`, and the token of the next page while rows remain.
pub fn page_of<T: Duplicate>(rows: &Vec<T>, batch_token: Option<String>) -> (r: (Vec<T>, Option<String>))
    ensures
        ({
            let start = page_start(rows@.len(), opt_view(batch_token));
            let end = page_end(rows@.len(), start);
            &&& r.0@ == rows@.subrange(start as int, end as int)
            &&& opt_view(r.1) == if end < rows@.len() { Some(dec(end)) } else { None::<Seq<char>> }
        }),
{
    let len = rows.len();
    let parsed = match &batch_token {
        Some(t) => parse_usize(t.as_str()),
        None => None,
    };
    let s: usize = match parsed {
        Some(n) => n,
        None => 0,
    };
    let start = if s < len { s } else { len };
    let end = if len - start > MOCK_PAGE_SIZE { start + MOCK_PAGE_SIZE } else { len };
    let mut out: Vec<T> = Vec::new();
    let mut i = start;
    while i < end
        invariant
            start <= i <= end <= rows@.len(),
            out@ == rows@.subrange(start as int, i as int),
        decreases end - i,
    {
        out.push(rows[i].duplicate());
        assert(out@ =~= rows@.subrange(start as int, i + 1));
        i = i + 1;
    }
    let next = if end < len { Some(crate::text::dec_string(end as u64)) } else { None };
    (out, next)
}

/// "Load more" continues where the last page stopped: the next token of a
/// page starts the following page at that page's end, pages hold at most
/// the page size, and a page is empty only at the end of the rows.
pub proof fn law_pages_continue(len: nat, token: Option<Seq<char>>)
    requires
        len <= usize::MAX,
    ensures
        page_end(len, page_start(len, token)) < len ==> page_start(
            len,
            Some(dec(page_end(len, page_start(len, token)))),
        ) == page_end(len, page_start(len, token)),
        page_end(len, page_start(len, token)) - page_start(len, token) <= MOCK_PAGE_SIZE,
        page_start(len, token) < len ==> page_start(len, token) < page_end(len, page_start(len, token)),
{
    let e = page_end(len, page_start(len, token));
    crate::text::law_parse_prints_back(e);
}

impl MockClient {
    /// A page of the public rooms matching `query`.
    pub fn public_rooms(&self, query: String, batch_token: Option<String>) -> (r: Result<PublicRoomPage, ClientError>)
        ensures
            r matches Ok(page) && {
                let rows = directory_rows(self.public_rooms@, query@);
                let start = page_start(rows.len(), opt_view(batch_token));
                let end = page_end(rows.len(), start);
                &&& page.rooms@ == rows.subrange(start as int, end as int)
                &&& opt_view(page.next) == if end < rows.len() { Some(dec(end)) } else { None::<Seq<char>> }
            },
    {
        let rows = filter_directory(&self.public_rooms, query.as_str());
        let (rooms, next) = page_of(&rows, batch_token);
        Ok(PublicRoomPage { rooms, next })
    }

    /// A page of the public spaces matching `query`.
    pub fn public_spaces(&self, query: String, batch_token: Option<String>) -> (r: Result<PublicSpacePage, ClientError>)
        ensures
            r matches Ok(page) && {
                let rows = directory_rows(self.public_spaces@, query@);
                let start = page_start(rows.len(), opt_view(batch_token));
                let end = page_end(rows.len(), start);
                &&& page.spaces@ == rows.subrange(start as int, end as int)
                &&& opt_view(page.next) == if end < rows.len() { Some(dec(end)) } else { None::<Seq<char>> }
            },
    {
        let rows = filter_directory(&self.public_spaces, query.as_str());
        let (spaces, next) = page_of(&rows, batch_token);
        Ok(PublicSpacePage { spaces, next })
    }
}

// ----------------------------------------------------------------------
// Joining and leaving
// ----------------------------------------------------------------------

/// The first record of `s` keyed `k` (meaningful when there is one).
pub open spec fn keyed_record<T: Keyed>(s: Seq<T>, k: Seq<char>) -> T {
    s[choose|i: int| first_keyed(s, k, i)]
}

proof fn lemma_first_keyed_unique<T: Keyed>(s: Seq<T>, k: Seq<char>, p: int, q: int)
    requires
        first_keyed(s, k, p),
        first_keyed(s, k, q),
    ensures
        p == q,
{
    if p < q {
        assert(s[p].key_view() != k);
    } else if q < p {
        assert(s[q].key_view() != k);
    }
}

/// The conversation a joined room is listed as: named and described by its
/// directory row when there is one, ungrouped, with a "You joined this room"
/// last line.
pub open spec fn joined_convo(c: Convo, id: Seq<char>, rooms: Seq<PublicRoom>) -> bool {
    &&& c.id@ == id
    &&& c.kind == ConvoKind::Room
    &&& c.last@ == "You joined this room"@
    &&& c.unread == 0
    &&& !c.encrypted
    &&& c.avatar is None
    &&& c.mxid is None
    &&& c.status is None
    &&& c.space is None
    &&& if has_keyed(rooms, id) {
        let row = keyed_record(rooms, id);
        &&& c.name@ == row.name@
        &&& c.members == Some(row.members)
        &&& opt_view(c.topic) == Some(row.topic@)
    } else {
        &&& c.name@ == id
        &&& c.members is None
        &&& c.topic is None
    }
}

impl MockClient {
    /// Everything but the two lists is as it was.
    pub open spec fn same_except_lists(&self, o: &Self) -> bool {
        &&& self.me == o.me
        &&& self.devices == o.devices
        &&& self.notif == o.notif
        &&& self.prefs == o.prefs
        &&& self.messages == o.messages
        &&& self.threads == o.threads
        &&& self.public_rooms == o.public_rooms
        &&& self.public_spaces == o.public_spaces
        &&& self.next_id == o.next_id
        &&& self.bound == o.bound
        &&& self.verification == o.verification
        &&& self.target_device == o.target_device
    }

    /// Joins a room or a space from the directory. An id mentioning
    /// "forbidden" is refused; a directory space joins the space list; any
    /// other id joins the conversation list as an ungrouped room. Joining
    /// what is already listed changes nothing.
    pub fn join_room(&mut self, room_id_or_alias: &str) -> (r: Result<(), ClientError>)
        ensures
            final(self).same_except_lists(old(self)),
            occurs_in(room_id_or_alias@, "forbidden"@) ==> {
                &&& r matches Err(err) && err.kind == crate::error::ClientErrorKind::Auth
                    && err.message@ == "You can't join that room (invite-only?)."@
                &&& final(self).spaces == old(self).spaces
                &&& final(self).convos == old(self).convos
            },
            !occurs_in(room_id_or_alias@, "forbidden"@) ==> {
                &&& r is Ok
                &&& has_keyed(final(self).convos@, room_id_or_alias@) || has_keyed(final(self).spaces@, room_id_or_alias@)
            },
            !occurs_in(room_id_or_alias@, "forbidden"@) && has_keyed(old(self).public_spaces@, room_id_or_alias@) ==> {
                let row = keyed_record(old(self).public_spaces@, room_id_or_alias@);
                &&& final(self).convos == old(self).convos
                &&& has_keyed(old(self).spaces@, room_id_or_alias@) ==> final(self).spaces == old(self).spaces
                &&& !has_keyed(old(self).spaces@, room_id_or_alias@) ==> spaces_view(final(self).spaces@)
                    == spaces_view(old(self).spaces@).push(SpaceView {
                    id: row.id@,
                    name: row.name@,
                    avatar: None,
                    members: Some(row.members),
                    children: seq![],
                })
            },
            !occurs_in(room_id_or_alias@, "forbidden"@) && !has_keyed(old(self).public_spaces@, room_id_or_alias@) ==> {
                &&& final(self).spaces == old(self).spaces
                &&& has_keyed(old(self).convos@, room_id_or_alias@) ==> final(self).convos == old(self).convos
                &&& !has_keyed(old(self).convos@, room_id_or_alias@) ==> {
                    &&& final(self).convos@.len() == old(self).convos@.len() + 1
                    &&& final(self).convos@.drop_last() == old(self).convos@
                    &&& joined_convo(final(self).convos@.last(), room_id_or_alias@, old(self).public_rooms@)
                }
            },
    {
        let idv = chars_of(room_id_or_alias);
        let forbidden = chars_of("forbidden");
        if contains_seq(&idv, &forbidden) {
            return Err(ClientError::auth("You can't join that room (invite-only?)."));
        }
        if let Some(p) = position_of_key(&self.public_spaces, room_id_or_alias) {
            proof {
                assert forall|q: int| first_keyed(self.public_spaces@, room_id_or_alias@, q) implies q == p by {
                    lemma_first_keyed_unique(self.public_spaces@, room_id_or_alias@, p as int, q);
                }
            }
            match position_of_key(&self.spaces, room_id_or_alias) {
                Some(k) => {
                    return Ok(());
                },
                None => {},
            }
            let row = &self.public_spaces[p];
            let space = Space {
                id: row.id.duplicate(),
                name: row.name.duplicate(),
                avatar: None,
                members: Some(row.members),
                children: Vec::new(),
            };
            assert(crate::model::strings_view(space.children@) =~= seq![]);
            let ghost before = self.spaces@;
            self.spaces.push(space);
            assert(spaces_view(self.spaces@) =~= spaces_view(before).push(space@));
            assert(self.spaces@[before.len() as int].key_view() == room_id_or_alias@);
            return Ok(());
        }
        if position_of_key(&self.convos, room_id_or_alias).is_some() {
            return Ok(());
        }
        let (name, members, topic) = match position_of_key(&self.public_rooms, room_id_or_alias) {
            Some(p) => {
                proof {
                    assert forall|q: int| first_keyed(self.public_rooms@, room_id_or_alias@, q) implies q == p by {
                        lemma_first_keyed_unique(self.public_rooms@, room_id_or_alias@, p as int, q);
                    }
                }
                let row = &self.public_rooms[p];
                (row.name.duplicate(), Some(row.members), Some(row.topic.duplicate()))
            },
            None => (owned(room_id_or_alias), None, None),
        };
        let convo = Convo {
            id: owned(room_id_or_alias),
            kind: ConvoKind::Room,
            name,
            last: owned("You joined this room"),
            unread: 0,
            encrypted: false,
            avatar: None,
            mxid: None,
            status: None,
            topic,
            space: None,
            members,
        };
        let ghost before = self.convos@;
        self.convos.push(convo);
        assert(self.convos@.drop_last() =~= before);
        assert(self.convos@[before.len() as int].key_view() == room_id_or_alias@);
        Ok(())
    }

    /// Leaves a room or a space: it goes from both lists. An id in neither
    /// list is refused.
    pub fn leave_room(&mut self, room_id: &str) -> (r: Result<(), ClientError>)
        ensures
            final(self).same_except_lists(old(self)),
            !has_keyed(old(self).convos@, room_id@) && !has_keyed(old(self).spaces@, room_id@) ==> {
                &&& r matches Err(err) && err.kind == crate::error::ClientErrorKind::Invalid
                    && err.message@ == "That room isn't in your list anymore."@
                &&& final(self).spaces == old(self).spaces
                &&& final(self).convos == old(self).convos
            },
            has_keyed(old(self).convos@, room_id@) || has_keyed(old(self).spaces@, room_id@) ==> {
                &&& r is Ok
                &&& final(self).convos@ == without_keyed(old(self).convos@, room_id@)
                &&& final(self).spaces@ == without_keyed(old(self).spaces@, room_id@)
            },
    {
        let had_room = position_of_key(&self.convos, room_id).is_some();
        let had_space = position_of_key(&self.spaces, room_id).is_some();
        if !had_room && !had_space {
            return Err(ClientError::invalid("That room isn't in your list anymore."));
        }
        remove_keyed(&mut self.convos, room_id);
        remove_keyed(&mut self.spaces, room_id);
        Ok(())
    }

    /// The signed-in account.
    pub fn me(&self) -> (r: Me)
        ensures
            r == self.me,
    {
        self.me.duplicate()
    }

    /// The joined spaces.
    pub fn spaces(&self) -> (r: Vec<Space>)
        ensures
            spaces_view(r@) == spaces_view(self.spaces@),
    {
        copy_spaces(&self.spaces)
    }

    /// The conversation list.
    pub fn conversations(&self) -> (r: Vec<Convo>)
        ensures
            r@ == self.convos@,
    {
        duplicate_all(&self.convos)
    }
}

/// After leaving, the room is in neither list, and everything else stays
/// listed in its order.
pub proof fn law_left_room_is_gone<T: Keyed>(s: Seq<T>, k: Seq<char>)
    ensures
        !has_keyed(without_keyed(s, k), k),
        forall|i: int| 0 <= i < s.len() && s[i].key_view() != k ==> without_keyed(s, k).contains(#[trigger] s[i]),
{
    let pred = crate::store::not_keyed::<T>(k);
    let f = without_keyed(s, k);
    assert forall|i: int| 0 <= i < f.len() implies #[trigger] f[i].key_view() != k by {
        s.lemma_filter_pred(pred, i);
    }
    assert forall|i: int| 0 <= i < s.len() && s[i].key_view() != k implies without_keyed(s, k).contains(#[trigger] s[i]) by {
        s.lemma_filter_contains(pred, i);
    }
}

// ----------------------------------------------------------------------
// The seed
// ----------------------------------------------------------------------

pub open spec fn convo_ids(s: Seq<Convo>) -> Seq<Seq<char>> {
    s.map_values(|c: Convo| c.id@)
}

pub open spec fn space_ids(s: Seq<Space>) -> Seq<Seq<char>> {
    s.map_values(|x: Space| x.id@)
}

pub open spec fn device_ids(s: Seq<Device>) -> Seq<Seq<char>> {
    s.map_values(|d: Device| d.id@)
}

pub open spec fn room_ids(s: Seq<PublicRoom>) -> Seq<Seq<char>> {
    s.map_values(|r: PublicRoom| r.id@)
}

pub open spec fn public_space_ids(s: Seq<PublicSpace>) -> Seq<Seq<char>> {
    s.map_values(|r: PublicSpace| r.id@)
}

fn space_seed(id: &str, name: &str, members: u32, children: Vec<String>) -> (s: Space)
    ensures
        s.id@ == id@,
        s.name@ == name@,
        s.avatar is None,
        s.members == Some(members),
        s.children@ == children@,
{
    Space { id: owned(id), name: owned(name), avatar: None, members: Some(members), children }
}

/// The seeded spaces with the rooms they hold.
pub open spec fn seed_spaces_spec() -> Seq<SpaceView> {
    seq![
        SpaceView {
            id: "vesper-team"@,
            name: "Vesper Team"@,
            avatar: None,
            members: Some(7),
            children: seq!["general"@, "design"@, "ops"@],
        },
        SpaceView {
            id: "matrix-hq"@,
            name: "Matrix HQ"@,
            avatar: None,
            members: Some(523),
            children: seq!["matrix-hq"@, "random"@],
        },
    ]
}

fn seed_spaces() -> (v: Vec<Space>)
    ensures
        spaces_view(v@) == seed_spaces_spec(),
        space_ids(v@) == seq!["vesper-team"@, "matrix-hq"@],
{
    let v = vec![
        space_seed(
            "vesper-team",
            "Vesper Team",
            7,
            vec![owned("general"), owned("design"), owned("ops")],
        ),
        space_seed("matrix-hq", "Matrix HQ", 523, vec![owned("matrix-hq"), owned("random")]),
    ];
    assert(space_ids(v@) =~= seq!["vesper-team"@, "matrix-hq"@]);
    proof {
        assert(strings_view(v@[0].children@) =~= seq!["general"@, "design"@, "ops"@]);
        assert(strings_view(v@[1].children@) =~= seq!["matrix-hq"@, "random"@]);
    }
    assert(spaces_view(v@) =~= seed_spaces_spec());
    v
}

/// The seeded conversations: three direct messages, then five rooms in
/// their spaces.
pub open spec fn seed_convos_spec() -> Seq<ConvoView> {
    seq![
        dm_view("dm-akari"@, "Akari Fur"@, "@akari:vesper.chat"@, Presence::Online, "want me to open a PR for the avatar fallback color?"@, 1),
        dm_view("dm-mira"@, "Mira Solheim"@, "@mira:matrix.org"@, Presence::Away, "see you at 3"@, 0),
        dm_view("dm-jonas"@, "Jonas Reyk"@, "@jonas:envs.net"@, Presence::Offline, "thanks for the review"@, 0),
        room_view("general"@, "vesper-team"@, "general"@, "Team-wide chatter"@, 6, "Akari: pushed the new fox icon set"@, 3, true),
        room_view("design"@, "vesper-team"@, "design"@, "Design reviews & assets"@, 4, "You: sounds good, shipping today"@, 0, true),
        room_view("ops"@, "vesper-team"@, "ops"@, "Deploys & infra"@, 5, "Deploy complete — v2.3.1"@, 0, false),
        room_view("matrix-hq"@, "matrix-hq"@, "matrix-hq"@, "Federation & protocol talk"@, 341, "sync federation issue resolved"@, 12, false),
        room_view("random"@, "matrix-hq"@, "random"@, "Off-topic"@, 182, "anyone else on the new build?"@, 1, false),
    ]
}

fn seed_convos() -> (v: Vec<Convo>)
    ensures
        convos_view(v@) == seed_convos_spec(),
        convo_ids(v@) == seq![
            "dm-akari"@,
            "dm-mira"@,
            "dm-jonas"@,
            "general"@,
            "design"@,
            "ops"@,
            "matrix-hq"@,
            "random"@,
        ],
{
    let v = vec![
        dm(
            "dm-akari",
            "Akari Fur",
            "@akari:vesper.chat",
            Presence::Online,
            "want me to open a PR for the avatar fallback color?",
            1,
        ),
        dm("dm-mira", "Mira Solheim", "@mira:matrix.org", Presence::Away, "see you at 3", 0),
        dm("dm-jonas", "Jonas Reyk", "@jonas:envs.net", Presence::Offline, "thanks for the review", 0),
        room("general", "vesper-team", "general", "Team-wide chatter", 6, "Akari: pushed the new fox icon set", 3, true),
        room("design", "vesper-team", "design", "Design reviews & assets", 4, "You: sounds good, shipping today", 0, true),
        room("ops", "vesper-team", "ops", "Deploys & infra", 5, "Deploy complete — v2.3.1", 0, false),
        room("matrix-hq", "matrix-hq", "matrix-hq", "Federation & protocol talk", 341, "sync federation issue resolved", 12, false),
        room("random", "matrix-hq", "random", "Off-topic", 182, "anyone else on the new build?", 1, false),
    ];
    assert(convo_ids(v@) =~= seq![
        "dm-akari"@,
        "dm-mira"@,
        "dm-jonas"@,
        "general"@,
        "design"@,
        "ops"@,
        "matrix-hq"@,
        "random"@,
    ]);
    assert(convos_view(v@) =~= seed_convos_spec());
    v
}

/// A plain received message, as seeded (see [`msg`]).
pub open spec fn msg_v(id: Seq<char>, from: Seq<char>, time: Seq<char>, text: Seq<char>) -> MessageView {
    MessageView {
        id,
        from,
        time,
        mine: false,
        system: false,
        text,
        reply_to: None,
        reactions: seq![],
        thread_count: 0,
        attachment: None,
        read_by: seq![],
        send_state: SendState::Sent,
        avatar: None,
    }
}

/// A system row, as seeded (see [`system`]).
pub open spec fn system_v(time: Seq<char>, text: Seq<char>) -> MessageView {
    MessageView { id: "sys-"@ + time, from: seq![], system: true, ..msg_v(seq![], seq![], time, text) }
}

pub open spec fn mine_v(m: MessageView) -> MessageView {
    MessageView { mine: true, ..m }
}

pub open spec fn reacted_v(m: MessageView, emoji: Seq<char>, count: u32, me: bool) -> MessageView {
    MessageView { reactions: m.reactions.push(ReactionView { emoji, count, me }), ..m }
}

pub open spec fn replying_to_v(m: MessageView, id: Seq<char>) -> MessageView {
    MessageView { reply_to: Some(id), ..m }
}

pub open spec fn threaded_v(m: MessageView, count: u32) -> MessageView {
    MessageView { thread_count: count, ..m }
}

pub open spec fn read_v(m: MessageView, by: Seq<Seq<char>>) -> MessageView {
    MessageView { read_by: by, ..m }
}

/// A seeded message without its attachment.
pub open spec fn seed_plain(m: MessageView) -> MessageView {
    MessageView { attachment: None, ..m }
}

/// A message as the seed states it: without its attachment, and the
/// attachment's kind, name and size, and whether it carries no media
/// metadata.
pub open spec fn seed_row(m: MessageView) -> (MessageView, Option<(AttachmentKind, Seq<char>, Seq<char>, bool)>) {
    (
        seed_plain(m),
        match m.attachment {
            Some(a) => Some((a.kind, a.name@, a.size@, bare_attachment(a, a.kind, a.name@, a.size@))),
            None => None,
        },
    )
}

pub open spec fn seed_rows(s: Seq<MessageView>) -> Seq<(MessageView, Option<(AttachmentKind, Seq<char>, Seq<char>, bool)>)> {
    s.map_values(|m: MessageView| seed_row(m))
}

/// A message store as the seed states it.
pub open spec fn seed_store_rows(store: Map<Seq<char>, Seq<MessageView>>) -> Map<Seq<char>, Seq<(MessageView, Option<(AttachmentKind, Seq<char>, Seq<char>, bool)>)>> {
    store.map_values(|s: Seq<MessageView>| seed_rows(s))
}

proof fn lemma_seed_store_rows_insert(store: Map<Seq<char>, Seq<MessageView>>, k: Seq<char>, v: Seq<MessageView>)
    ensures
        seed_store_rows(store.insert(k, v)) == seed_store_rows(store).insert(k, seed_rows(v)),
{
    assert(seed_store_rows(store.insert(k, v)) =~= seed_store_rows(store).insert(k, seed_rows(v)));
}

pub open spec fn seed_rows_general() -> Seq<(MessageView, Option<(AttachmentKind, Seq<char>, Seq<char>, bool)>)> {
    seq![
        (seed_plain(reacted_v(threaded_v(msg_v("g1"@, "Akari Fur"@, "13:58"@, "pushed the new fox icon set to the shared drive"@), 3), "👍"@, 2, false)), None),
        (seed_plain(replying_to_v(mine_v(msg_v("g2"@, "You"@, "14:00"@, "looks great, the stroke weight matches our **lucide** setup"@)), "g1"@)), None),
        (seed_plain(msg_v("g3"@, "Akari Fur"@, "14:01"@, "want me to open a PR for the avatar fallback color?"@)), None),
        (seed_plain(read_v(reacted_v(mine_v(msg_v("g4"@, "You"@, "14:02"@, "yes please"@)), "✅"@, 1, true), seq!["Akari Fur"@])), None),
    ]
}

pub open spec fn seed_rows_design() -> Seq<(MessageView, Option<(AttachmentKind, Seq<char>, Seq<char>, bool)>)> {
    seq![
        (seed_plain(msg_v("d1"@, "Mira Solheim"@, "11:20"@, "new fox mark variants are in the drive, check the roundel version"@)), Some((AttachmentKind::Image, "vesper-mark-variants.fig"@, "2.1 MB"@, true))),
        (seed_plain(mine_v(msg_v("d2"@, "You"@, "11:32"@, "the roundel is the one, matches the login screen nicely"@))), None),
        (seed_plain(reacted_v(msg_v("d3"@, "Mira Solheim"@, "11:33"@, "sounds good, shipping today"@), "🎉"@, 2, false)), None),
    ]
}

pub open spec fn seed_rows_ops() -> Seq<(MessageView, Option<(AttachmentKind, Seq<char>, Seq<char>, bool)>)> {
    seq![
        (seed_plain(msg_v("o1"@, "Jonas Reyk"@, "09:02"@, "rolling out v2.3.1, should be quick"@)), Some((AttachmentKind::File, "deploy-notes.pdf"@, "184 KB"@, true))),
        (seed_plain(system_v("09:14"@, "Room upgraded to v11"@)), None),
        (seed_plain(msg_v("o3"@, "Jonas Reyk"@, "09:20"@, "Deploy complete — v2.3.1"@)), None),
    ]
}

pub open spec fn seed_rows_matrix_hq() -> Seq<(MessageView, Option<(AttachmentKind, Seq<char>, Seq<char>, bool)>)> {
    seq![
        (seed_plain(msg_v("h1"@, "Elin Voss"@, "08:40"@, "anyone seeing sync delays on synapse 1.99?"@)), None),
        (seed_plain(msg_v("h2"@, "Ravi Kant"@, "08:44"@, "yeah, federation queue backed up on our side too"@)), None),
        (seed_plain(system_v("08:55"@, "Encryption verified for this session"@)), None),
        (seed_plain(reacted_v(msg_v("h4"@, "Elin Voss"@, "09:10"@, "sync federation issue resolved"@), "👍"@, 4, false)), None),
    ]
}

pub open spec fn seed_rows_random() -> Seq<(MessageView, Option<(AttachmentKind, Seq<char>, Seq<char>, bool)>)> {
    seq![
        (seed_plain(msg_v("r1"@, "Ravi Kant"@, "15:02"@, "anyone else on the new build?"@)), None),
        (seed_plain(mine_v(msg_v("r2"@, "You"@, "15:10"@, "yep, running it now"@))), None),
    ]
}

pub open spec fn seed_rows_dm_akari() -> Seq<(MessageView, Option<(AttachmentKind, Seq<char>, Seq<char>, bool)>)> {
    seq![
        (seed_plain(msg_v("a1"@, "Akari Fur"@, "13:58"@, "pushed the new fox icon set to the shared drive"@)), None),
        (seed_plain(mine_v(msg_v("a2"@, "You"@, "14:00"@, "looks great, the stroke weight matches our lucide setup"@))), None),
        (seed_plain(msg_v("a3"@, "Akari Fur"@, "14:01"@, "want me to open a PR for the avatar fallback color?"@)), None),
    ]
}

pub open spec fn seed_rows_dm_mira() -> Seq<(MessageView, Option<(AttachmentKind, Seq<char>, Seq<char>, bool)>)> {
    seq![
        (seed_plain(msg_v("m1"@, "Mira Solheim"@, "12:50"@, "lunch at 1?"@)), None),
        (seed_plain(mine_v(msg_v("m2"@, "You"@, "12:55"@, "see you at 3 works better for me"@))), None),
        (seed_plain(msg_v("m3"@, "Mira Solheim"@, "12:56"@, "see you at 3"@)), None),
    ]
}

pub open spec fn seed_rows_dm_jonas() -> Seq<(MessageView, Option<(AttachmentKind, Seq<char>, Seq<char>, bool)>)> {
    seq![
        (seed_plain(read_v(msg_v("j1"@, "Jonas Reyk"@, "Mon"@, "thanks for the review"@), seq![])), None),
    ]
}

/// The seeded messages of every conversation.
pub open spec fn seed_messages_spec() -> Map<Seq<char>, Seq<(MessageView, Option<(AttachmentKind, Seq<char>, Seq<char>, bool)>)>> {
    Map::empty()
        .insert("general"@, seed_rows_general())
        .insert("design"@, seed_rows_design())
        .insert("ops"@, seed_rows_ops())
        .insert("matrix-hq"@, seed_rows_matrix_hq())
        .insert("random"@, seed_rows_random())
        .insert("dm-akari"@, seed_rows_dm_akari())
        .insert("dm-mira"@, seed_rows_dm_mira())
        .insert("dm-jonas"@, seed_rows_dm_jonas())
}

/// Every reaction of these rows has at least one vote and is far from the
/// counter's limit.
pub open spec fn reactions_counted(rows: Seq<(MessageView, Option<(AttachmentKind, Seq<char>, Seq<char>, bool)>)>) -> bool {
    forall|i: int, j: int|
        0 <= i < rows.len() && 0 <= j < rows[i].0.reactions.len() ==> 1 <= #[trigger] rows[i].0.reactions[j].count < 1000
}

/// Every seeded reaction has at least one vote and is far from the
/// counter's limit, so toggling a reaction on a seeded message neither
/// withdraws a vote from zero nor overflows (see [`MockClient::react_safe`]).
pub proof fn law_seeded_reactions_are_counted(k: Seq<char>)
    requires
        seed_messages_spec().contains_key(k),
    ensures
        reactions_counted(seed_messages_spec()[k]),
{
    assert(reactions_counted(seed_rows_general())) by {
        assert(seed_rows_general()[0].0.reactions =~= seq![ReactionView { emoji: "👍"@, count: 2, me: false }]);
        assert(seed_rows_general()[1].0.reactions =~= seq![]);
        assert(seed_rows_general()[2].0.reactions =~= seq![]);
        assert(seed_rows_general()[3].0.reactions =~= seq![ReactionView { emoji: "✅"@, count: 1, me: true }]);
    }
    assert(reactions_counted(seed_rows_design())) by {
        assert(seed_rows_design()[0].0.reactions =~= seq![]);
        assert(seed_rows_design()[1].0.reactions =~= seq![]);
        assert(seed_rows_design()[2].0.reactions =~= seq![ReactionView { emoji: "🎉"@, count: 2, me: false }]);
    }
    assert(reactions_counted(seed_rows_ops())) by {
        assert(seed_rows_ops()[0].0.reactions =~= seq![]);
        assert(seed_rows_ops()[1].0.reactions =~= seq![]);
        assert(seed_rows_ops()[2].0.reactions =~= seq![]);
    }
    assert(reactions_counted(seed_rows_matrix_hq())) by {
        assert(seed_rows_matrix_hq()[0].0.reactions =~= seq![]);
        assert(seed_rows_matrix_hq()[1].0.reactions =~= seq![]);
        assert(seed_rows_matrix_hq()[2].0.reactions =~= seq![]);
        assert(seed_rows_matrix_hq()[3].0.reactions =~= seq![ReactionView { emoji: "👍"@, count: 4, me: false }]);
    }
    assert(reactions_counted(seed_rows_random())) by {
        assert(seed_rows_random()[0].0.reactions =~= seq![]);
        assert(seed_rows_random()[1].0.reactions =~= seq![]);
    }
    assert(reactions_counted(seed_rows_dm_akari())) by {
        assert(seed_rows_dm_akari()[0].0.reactions =~= seq![]);
        assert(seed_rows_dm_akari()[1].0.reactions =~= seq![]);
        assert(seed_rows_dm_akari()[2].0.reactions =~= seq![]);
    }
    assert(reactions_counted(seed_rows_dm_mira())) by {
        assert(seed_rows_dm_mira()[0].0.reactions =~= seq![]);
        assert(seed_rows_dm_mira()[1].0.reactions =~= seq![]);
        assert(seed_rows_dm_mira()[2].0.reactions =~= seq![]);
    }
    assert(reactions_counted(seed_rows_dm_jonas())) by {
        assert(seed_rows_dm_jonas()[0].0.reactions =~= seq![]);
    }
}

/// On the seeded store every reaction is safe to toggle: whatever the
/// conversation, message and emoji, [`MockClient::react`] may be called.
pub proof fn law_seeded_store_reacts_safely(m: MockClient, convo: Seq<char>, id: Seq<char>, e: Seq<char>)
    requires
        seed_store_rows(m.message_store()) == seed_messages_spec(),
    ensures
        m.react_safe(convo, id, e),
{
    let store = m.message_store();
    if store.contains_key(convo) {
        assert(seed_store_rows(store).contains_key(convo));
        law_seeded_reactions_are_counted(convo);
        let l = store[convo];
        let rows = seed_messages_spec()[convo];
        assert(rows == seed_rows(l));
        assert(m.messages_in(convo) == l);
        assert forall|j: int| #[trigger] first_message(m.messages_in(convo), id, j) implies toggle_safe(
            m.messages_in(convo)[j].reactions,
            e,
        ) by {
            assert(rows[j].0.reactions == l[j].reactions);
            assert forall|p: int| #[trigger] first_emoji(l[j].reactions, e, p) implies (if l[j].reactions[p].me {
                l[j].reactions[p].count > 0
            } else {
                l[j].reactions[p].count < u32::MAX
            }) by {
                assert(1 <= rows[j].0.reactions[p].count < 1000);
            }
        }
    } else {
        assert(m.messages_in(convo) =~= seq![]);
    }
}

impl MockClient {
    /// Stores `list` as the messages of `convo_id`, replacing any it had.
    fn put_messages(&mut self, convo_id: &str, list: Vec<Message>)
        requires
            old(self).wf(),
        ensures
            final(self).wf(),
            final(self).message_store() == old(self).message_store().insert(convo_id@, messages_view(list@)),
            *final(self) == (MockClient { messages: final(self).messages, ..*old(self) }),
    {
        let ghost e = self.messages@;
        match find_entry(&self.messages, convo_id) {
            Some(i) => {
                let (k, _) = self.messages.remove(i);
                let ghost entry = (k, list);
                self.messages.insert(i, (k, list));
                proof {
                    assert(self.messages@ =~= e.update(i as int, entry));
                    lemma_store_update(e, i as int, entry, message_list_view());
                }
            },
            None => {
                let entry = (owned(convo_id), list);
                proof {
                    lemma_store_push(e, entry, message_list_view());
                }
                self.messages.push(entry);
            },
        }
    }

    /// Stores `list` as the replies of the thread rooted at `root`.
    fn put_replies(&mut self, root: &str, list: Vec<ThreadReply>)
        requires
            old(self).wf(),
        ensures
            final(self).wf(),
            final(self).thread_store() == old(self).thread_store().insert(root@, list@),
            *final(self) == (MockClient { threads: final(self).threads, ..*old(self) }),
    {
        let ghost e = self.threads@;
        match find_entry(&self.threads, root) {
            Some(i) => {
                let (k, _) = self.threads.remove(i);
                let ghost entry = (k, list);
                self.threads.insert(i, (k, list));
                proof {
                    assert(self.threads@ =~= e.update(i as int, entry));
                    lemma_store_update(e, i as int, entry, reply_list_view());
                }
            },
            None => {
                let entry = (owned(root), list);
                proof {
                    lemma_store_push(e, entry, reply_list_view());
                }
                self.threads.push(entry);
            },
        }
    }
}

fn device_seed(id: &str, name: &str, last_seen: &str, verified: bool, current: bool) -> (d: Device)
    ensures
        d.id@ == id@,
        d.name@ == name@,
        d.last_seen@ == last_seen@,
        d.verified == verified,
        d.current == current,
{
    Device { id: owned(id), name: owned(name), last_seen: owned(last_seen), verified, current }
}

/// A session as plain values: id, name, last seen, verified, current.
pub open spec fn device_rows(s: Seq<Device>) -> Seq<(Seq<char>, Seq<char>, Seq<char>, bool, bool)> {
    s.map_values(|d: Device| (d.id@, d.name@, d.last_seen@, d.verified, d.current))
}

/// The seeded sessions; the first is this one.
pub open spec fn seed_device_rows() -> Seq<(Seq<char>, Seq<char>, Seq<char>, bool, bool)> {
    seq![
        ("d1"@, "Vesper · macOS"@, "active now"@, true, true),
        ("d2"@, "Vesper · iOS"@, "2h ago"@, false, false),
        ("d3"@, "Element · Web"@, "3d ago"@, true, false),
    ]
}

fn seed_devices() -> (v: Vec<Device>)
    ensures
        device_rows(v@) == seed_device_rows(),
        device_ids(v@) == seq!["d1"@, "d2"@, "d3"@],
        v@[0].current && !v@[1].current && !v@[2].current,
{
    let v = vec![
        device_seed("d1", "Vesper · macOS", "active now", true, true),
        device_seed("d2", "Vesper · iOS", "2h ago", false, false),
        device_seed("d3", "Element · Web", "3d ago", true, false),
    ];
    assert(device_ids(v@) =~= seq!["d1"@, "d2"@, "d3"@]);
    assert(device_rows(v@) =~= seed_device_rows());
    v
}

fn public_room(id: &str, name: &str, members: u32, topic: &str) -> (r: PublicRoom)
    ensures
        r.id@ == id@,
        r.name@ == name@,
        r.members == members,
        r.topic@ == topic@,
{
    PublicRoom { id: owned(id), name: owned(name), members, topic: owned(topic) }
}

fn public_space(id: &str, name: &str, members: u32, topic: &str) -> (r: PublicSpace)
    ensures
        r.id@ == id@,
        r.name@ == name@,
        r.members == members,
        r.topic@ == topic@,
{
    PublicSpace { id: owned(id), name: owned(name), members, topic: owned(topic) }
}

/// A directory row as plain values: id, name, member count, topic.
pub open spec fn room_rows(s: Seq<PublicRoom>) -> Seq<(Seq<char>, Seq<char>, u32, Seq<char>)> {
    s.map_values(|r: PublicRoom| (r.id@, r.name@, r.members, r.topic@))
}

pub open spec fn space_rows(s: Seq<PublicSpace>) -> Seq<(Seq<char>, Seq<char>, u32, Seq<char>)> {
    s.map_values(|r: PublicSpace| (r.id@, r.name@, r.members, r.topic@))
}

/// The seeded public room directory.
pub open spec fn seed_room_rows() -> Seq<(Seq<char>, Seq<char>, u32, Seq<char>)> {
    seq![
        ("fosdem"@, "fosdem:matrix.org"@, 2400u32, "FOSDEM conference chat"@),
        ("synapse-dev"@, "synapse-dev:matrix.org"@, 890u32, "Synapse homeserver development"@),
        ("matrix-clients"@, "matrix-clients:matrix.org"@, 610u32, "Client development discussion"@),
        ("rust"@, "rust:matrix.org"@, 3100u32, "The Rust programming language"@),
        ("thisweekinmatrix"@, "twim:matrix.org"@, 480u32, "This Week in Matrix"@),
        ("matrix-spec"@, "matrix-spec:matrix.org"@, 260u32, "Spec authoring and process"@),
        ("triage"@, "traversal:matrix.org"@, 120u32, "Wednesday triage party"@),
        ("forbidden-room"@, "invite-only:example.org"@, 42u32, "Joining this one fails (mock error fixture)"@),
    ]
}

/// The seeded public space directory.
pub open spec fn seed_space_rows() -> Seq<(Seq<char>, Seq<char>, u32, Seq<char>)> {
    seq![
        ("foss-collective"@, "FOSS Collective"@, 2412u32, "Free software communities under one roof"@),
        ("indie-devs"@, "Indie Devs"@, 611u32, "Solo gamedev and appdev chatter"@),
        ("matrix-live"@, "Matrix Live"@, 890u32, "Talks, streams, and office hours"@),
        ("privacy-tools"@, "Privacy Tools"@, 137u32, "E2EE everything"@),
        ("web-dev-hub"@, "Web Dev Hub"@, 533u32, "Frontend, backend, and the misery between"@),
    ]
}

fn seed_public_rooms() -> (v: Vec<PublicRoom>)
    ensures
        room_rows(v@) == seed_room_rows(),
        room_ids(v@) == seq![
            "fosdem"@,
            "synapse-dev"@,
            "matrix-clients"@,
            "rust"@,
            "thisweekinmatrix"@,
            "matrix-spec"@,
            "triage"@,
            "forbidden-room"@,
        ],
{
    let v = vec![
        public_room("fosdem", "fosdem:matrix.org", 2400, "FOSDEM conference chat"),
        public_room("synapse-dev", "synapse-dev:matrix.org", 890, "Synapse homeserver development"),
        public_room("matrix-clients", "matrix-clients:matrix.org", 610, "Client development discussion"),
        public_room("rust", "rust:matrix.org", 3100, "The Rust programming language"),
        public_room("thisweekinmatrix", "twim:matrix.org", 480, "This Week in Matrix"),
        public_room("matrix-spec", "matrix-spec:matrix.org", 260, "Spec authoring and process"),
        public_room("triage", "traversal:matrix.org", 120, "Wednesday triage party"),
        public_room("forbidden-room", "invite-only:example.org", 42, "Joining this one fails (mock error fixture)"),
    ];
    assert(room_ids(v@) =~= seq![
        "fosdem"@,
        "synapse-dev"@,
        "matrix-clients"@,
        "rust"@,
        "thisweekinmatrix"@,
        "matrix-spec"@,
        "triage"@,
        "forbidden-room"@,
    ]);
    assert(room_rows(v@) =~= seed_room_rows());
    v
}

fn seed_public_spaces() -> (v: Vec<PublicSpace>)
    ensures
        space_rows(v@) == seed_space_rows(),
        public_space_ids(v@) == seq![
            "foss-collective"@,
            "indie-devs"@,
            "matrix-live"@,
            "privacy-tools"@,
            "web-dev-hub"@,
        ],
{
    let v = vec![
        public_space("foss-collective", "FOSS Collective", 2412, "Free software communities under one roof"),
        public_space("indie-devs", "Indie Devs", 611, "Solo gamedev and appdev chatter"),
        public_space("matrix-live", "Matrix Live", 890, "Talks, streams, and office hours"),
        public_space("privacy-tools", "Privacy Tools", 137, "E2EE everything"),
        public_space("web-dev-hub", "Web Dev Hub", 533, "Frontend, backend, and the misery between"),
    ];
    assert(public_space_ids(v@) =~= seq![
        "foss-collective"@,
        "indie-devs"@,
        "matrix-live"@,
        "privacy-tools"@,
        "web-dev-hub"@,
    ]);
    assert(space_rows(v@) =~= seed_space_rows());
    v
}

/// Thread replies as plain values: sender, time, mine, text.
pub open spec fn reply_rows(s: Seq<ThreadReply>) -> Seq<(Seq<char>, Seq<char>, bool, Seq<char>)> {
    s.map_values(|r: ThreadReply| (r.from@, r.time@, r.mine, r.text@))
}

fn reply_seed(from: &str, time: &str, mine: bool, text: &str) -> (r: ThreadReply)
    ensures
        r.from@ == from@,
        r.time@ == time@,
        r.mine == mine,
        r.text@ == text@,
{
    ThreadReply { from: owned(from), time: owned(time), mine, text: owned(text) }
}

impl MockClient {
    fn seed_timelines(&mut self)
        requires
            old(self).wf(),
            old(self).messages@.len() == 0,
        ensures
            final(self).wf(),
            seed_store_rows(final(self).message_store()) == seed_messages_spec(),
            *final(self) == (MockClient { messages: final(self).messages, ..*old(self) }),
    {
        proof {
            assert(self.message_store() =~= Map::<Seq<char>, Seq<MessageView>>::empty());
            assert(seed_store_rows(self.message_store()) =~= Map::empty());
        }
        let akari_read: Vec<&str> = vec!["Akari Fur"];
        assert(akari_read@.map_values(|s: &str| s@) =~= seq!["Akari Fur"@]);
        let list_general = vec![
                reacted(threaded(msg("g1", "Akari Fur", "13:58", "pushed the new fox icon set to the shared drive"), 3), "👍", 2, false),
                replying_to(mine(msg("g2", "You", "14:00", "looks great, the stroke weight matches our **lucide** setup")), "g1"),
                msg("g3", "Akari Fur", "14:01", "want me to open a PR for the avatar fallback color?"),
                read(reacted(mine(msg("g4", "You", "14:02", "yes please")), "✅", 1, true), akari_read.as_slice()),
            ];
        assert(seed_rows(messages_view(list_general@)) =~= seed_rows_general());
        let ghost before = self.message_store();
        self.put_messages("general", list_general);
        proof {
            lemma_seed_store_rows_insert(before, "general"@, messages_view(list_general@));
        }
        let list_design = vec![
                with_attachment(
                    msg("d1", "Mira Solheim", "11:20", "new fox mark variants are in the drive, check the roundel version"),
                    AttachmentKind::Image,
                    "vesper-mark-variants.fig",
                    "2.1 MB",
                ),
                mine(msg("d2", "You", "11:32", "the roundel is the one, matches the login screen nicely")),
                reacted(msg("d3", "Mira Solheim", "11:33", "sounds good, shipping today"), "🎉", 2, false),
            ];
        assert(seed_rows(messages_view(list_design@)) =~= seed_rows_design());
        let ghost before = self.message_store();
        self.put_messages("design", list_design);
        proof {
            lemma_seed_store_rows_insert(before, "design"@, messages_view(list_design@));
        }
        let list_ops = vec![
                with_attachment(
                    msg("o1", "Jonas Reyk", "09:02", "rolling out v2.3.1, should be quick"),
                    AttachmentKind::File,
                    "deploy-notes.pdf",
                    "184 KB",
                ),
                system("09:14", "Room upgraded to v11"),
                msg("o3", "Jonas Reyk", "09:20", "Deploy complete — v2.3.1"),
            ];
        assert(seed_rows(messages_view(list_ops@)) =~= seed_rows_ops());
        let ghost before = self.message_store();
        self.put_messages("ops", list_ops);
        proof {
            lemma_seed_store_rows_insert(before, "ops"@, messages_view(list_ops@));
        }
        let list_matrix_hq = vec![
                msg("h1", "Elin Voss", "08:40", "anyone seeing sync delays on synapse 1.99?"),
                msg("h2", "Ravi Kant", "08:44", "yeah, federation queue backed up on our side too"),
                system("08:55", "Encryption verified for this session"),
                reacted(msg("h4", "Elin Voss", "09:10", "sync federation issue resolved"), "👍", 4, false),
            ];
        assert(seed_rows(messages_view(list_matrix_hq@)) =~= seed_rows_matrix_hq());
        let ghost before = self.message_store();
        self.put_messages("matrix-hq", list_matrix_hq);
        proof {
            lemma_seed_store_rows_insert(before, "matrix-hq"@, messages_view(list_matrix_hq@));
        }
        let list_random = vec![
                msg("r1", "Ravi Kant", "15:02", "anyone else on the new build?"),
                mine(msg("r2", "You", "15:10", "yep, running it now")),
            ];
        assert(seed_rows(messages_view(list_random@)) =~= seed_rows_random());
        let ghost before = self.message_store();
        self.put_messages("random", list_random);
        proof {
            lemma_seed_store_rows_insert(before, "random"@, messages_view(list_random@));
        }
        let list_dm_akari = vec![
                msg("a1", "Akari Fur", "13:58", "pushed the new fox icon set to the shared drive"),
                mine(msg("a2", "You", "14:00", "looks great, the stroke weight matches our lucide setup")),
                msg("a3", "Akari Fur", "14:01", "want me to open a PR for the avatar fallback color?"),
            ];
        assert(seed_rows(messages_view(list_dm_akari@)) =~= seed_rows_dm_akari());
        let ghost before = self.message_store();
        self.put_messages("dm-akari", list_dm_akari);
        proof {
            lemma_seed_store_rows_insert(before, "dm-akari"@, messages_view(list_dm_akari@));
        }
        let list_dm_mira = vec![
                msg("m1", "Mira Solheim", "12:50", "lunch at 1?"),
                mine(msg("m2", "You", "12:55", "see you at 3 works better for me")),
                msg("m3", "Mira Solheim", "12:56", "see you at 3"),
            ];
        assert(seed_rows(messages_view(list_dm_mira@)) =~= seed_rows_dm_mira());
        let ghost before = self.message_store();
        self.put_messages("dm-mira", list_dm_mira);
        proof {
            lemma_seed_store_rows_insert(before, "dm-mira"@, messages_view(list_dm_mira@));
        }
        let nobody: Vec<&str> = Vec::new();
        assert(nobody@.map_values(|s: &str| s@) =~= Seq::<Seq<char>>::empty());
        let list_dm_jonas = vec![read(msg("j1", "Jonas Reyk", "Mon", "thanks for the review"), nobody.as_slice())];
        assert(seed_rows(messages_view(list_dm_jonas@)) =~= seed_rows_dm_jonas());
        let ghost before = self.message_store();
        self.put_messages("dm-jonas", list_dm_jonas);
        proof {
            lemma_seed_store_rows_insert(before, "dm-jonas"@, messages_view(list_dm_jonas@));
        }
    }
}

impl Default for MockClient {
    /// The seeded offline account: two spaces, three direct messages and
    /// five rooms with their messages, one thread, three sessions (the first
    /// is this one), the directory fixtures, default notification toggles
    /// and preferences; not attached to a UI, no verification running.
    fn default() -> (m: MockClient)
        ensures
            m.wf(),
            m.me.name@ == "You"@,
            m.me.id@ == "@you:vesper.chat"@,
            m.me.avatar is None,
            space_ids(m.spaces@) == seq!["vesper-team"@, "matrix-hq"@],
            convo_ids(m.convos@) == seq![
                "dm-akari"@,
                "dm-mira"@,
                "dm-jonas"@,
                "general"@,
                "design"@,
                "ops"@,
                "matrix-hq"@,
                "random"@,
            ],
            m.message_store().dom() == set![
                "general"@,
                "design"@,
                "ops"@,
                "matrix-hq"@,
                "random"@,
                "dm-akari"@,
                "dm-mira"@,
                "dm-jonas"@,
            ],
            convos_view(m.convos@) == seed_convos_spec(),
            spaces_view(m.spaces@) == seed_spaces_spec(),
            room_rows(m.public_rooms@) == seed_room_rows(),
            space_rows(m.public_spaces@) == seed_space_rows(),
            seed_store_rows(m.message_store()) == seed_messages_spec(),
            m.thread_store().dom() == set!["g1"@],
            m.replies_to("g1"@).len() == 3,
            reply_rows(m.replies_to("g1"@)) == seq![
                ("Mira Solheim"@, "14:05"@, false, "love the new tail shape"@),
                ("Akari Fur"@, "14:06"@, false, "thanks, iterated on it a bunch"@),
                ("You"@, "14:10"@, true, "shipping in the next release"@),
            ],
            device_rows(m.devices@) == seed_device_rows(),
            device_ids(m.devices@) == seq!["d1"@, "d2"@, "d3"@],
            m.devices@[0].current && !m.devices@[1].current && !m.devices@[2].current,
            room_ids(m.public_rooms@) == seq![
                "fosdem"@,
                "synapse-dev"@,
                "matrix-clients"@,
                "rust"@,
                "thisweekinmatrix"@,
                "matrix-spec"@,
                "triage"@,
                "forbidden-room"@,
            ],
            public_space_ids(m.public_spaces@) == seq![
                "foss-collective"@,
                "indie-devs"@,
                "matrix-live"@,
                "privacy-tools"@,
                "web-dev-hub"@,
            ],
            m.notif@.len() == crate::notifications::rule_table_spec().len(),
            forall|i: int| #![trigger m.notif@[i]] 0 <= i < m.notif@.len() ==> {
                &&& m.notif@[i].id@ == crate::notifications::rule_table_spec()[i].id
                &&& m.notif@[i].label@ == crate::notifications::rule_table_spec()[i].label
                &&& m.notif@[i].enabled == crate::notifications::rule_table_spec()[i].default
            },
            m.prefs.version == 1,
            m.prefs.theme@ == "dark"@,
            m.prefs.read_receipts,
            m.prefs.typing_indicators,
            m.next_id == 1,
            !m.bound,
            m.verification is None,
            m.target_device is None,
    {
        let mut m = MockClient {
            me: Me { name: owned("You"), id: owned("@you:vesper.chat"), avatar: None },
            spaces: seed_spaces(),
            convos: seed_convos(),
            messages: Vec::new(),
            threads: Vec::new(),
            devices: seed_devices(),
            public_rooms: seed_public_rooms(),
            public_spaces: seed_public_spaces(),
            notif: crate::notifications::default_toggles(),
            prefs: Prefs::default(),
            next_id: 1,
            bound: false,
            verification: None,
            target_device: None,
        };
        proof {
            assert(m.message_store().dom() =~= Set::<Seq<char>>::empty());
            assert(m.thread_store().dom() =~= Set::<Seq<char>>::empty());
        }
        m.seed_timelines();
        let replies = vec![
            reply_seed("Mira Solheim", "14:05", false, "love the new tail shape"),
            reply_seed("Akari Fur", "14:06", false, "thanks, iterated on it a bunch"),
            reply_seed("You", "14:10", true, "shipping in the next release"),
        ];
        let ghost replies_view = replies@;
        m.put_replies("g1", replies);
        proof {
            assert(m.replies_to("g1"@) == replies_view);
            assert(reply_rows(replies_view) =~= seq![
                ("Mira Solheim"@, "14:05"@, false, "love the new tail shape"@),
                ("Akari Fur"@, "14:06"@, false, "thanks, iterated on it a bunch"@),
                ("You"@, "14:10"@, true, "shipping in the next release"@),
            ]);
            assert(m.message_store().dom() =~= seed_store_rows(m.message_store()).dom());
            assert(seed_messages_spec().dom() =~= set![
                "general"@,
                "design"@,
                "ops"@,
                "matrix-hq"@,
                "random"@,
                "dm-akari"@,
                "dm-mira"@,
                "dm-jonas"@,
            ]);
            assert(m.message_store().dom() =~= set![
                "general"@,
                "design"@,
                "ops"@,
                "matrix-hq"@,
                "random"@,
                "dm-akari"@,
                "dm-mira"@,
                "dm-jonas"@,
            ]);
            assert(m.thread_store().dom() =~= set!["g1"@]);
        }
        m
    }
}

pub open spec fn opt_session_view(o: Option<VerificationSession>) -> Option<SessionView> {
    match o {
        Some(s) => Some(s@),
        None => None,
    }
}

} // verus!
