//! Live state: outgoing typing notices with their idle reset, presence, and
//! desktop notifications for messages in background rooms.

use vstd::prelude::*;

use crate::model::{strings_view, Presence};
use crate::store::{entries_distinct, find_entry, lemma_entry_index, lemma_store_push, lemma_store_update, store_view};
use crate::text::{chars_of, owned, string_from_chars};

verus! {

/// Seconds after the last keystroke before "stopped typing" is sent.
pub const TYPING_IDLE_RESET_SECS: u64 = 4;

/// Characters of a notification preview before it is cut.
pub const PREVIEW_CHARS: usize = 80;

// ----------------------------------------------------------------------
// Typing
// ----------------------------------------------------------------------

/// What the runtime does after a typing change: cancel a pending idle
/// timer, send a typing notice, and whether to arm a new idle timer.
#[derive(Debug, Clone, Copy, PartialEq, Eq, Structural)]
pub struct TypingStep {
    pub cancel: Option<u64>,
    pub send: bool,
    pub arm: bool,
}

/// Rooms the user is typing in, each with its armed idle timer (by the
/// handle id the runtime gave it), or none while a new one is being armed.
pub struct TypingManager {
    pub rooms: Vec<(String, Option<u64>)>,
}

pub open spec fn timer_view() -> spec_fn(Option<u64>) -> Option<u64> {
    |t: Option<u64>| t
}

impl TypingManager {
    pub open spec fn wf(&self) -> bool {
        entries_distinct(self.rooms@)
    }

    /// Room id to its idle timer.
    pub open spec fn view_map(&self) -> Map<Seq<char>, Option<u64>> {
        store_view(self.rooms@, timer_view())
    }

    /// The timer of a room, if it has one armed.
    pub open spec fn timer_of(&self, room: Seq<char>) -> Option<u64> {
        if self.view_map().contains_key(room) { self.view_map()[room] } else { None }
    }

    pub fn new() -> (m: TypingManager)
        ensures
            m.wf(),
            m.view_map() == Map::<Seq<char>, Option<u64>>::empty(),
    {
        let m = TypingManager { rooms: Vec::new() };
        assert(m.view_map() =~= Map::<Seq<char>, Option<u64>>::empty());
        m
    }

    /// The user started or stopped typing in `room_id`. Starting forwards
    /// "typing" (the server side dedups repeats), cancels the pending idle
    /// timer and asks for a new one; stopping cancels the timer, sends
    /// "stopped" and forgets the room.
    pub fn set(&mut self, room_id: &str, typing: bool) -> (step: TypingStep)
        requires
            old(self).wf(),
        ensures
            final(self).wf(),
            step.cancel == old(self).timer_of(room_id@),
            step.send == typing,
            step.arm == typing,
            typing ==> final(self).view_map() == old(self).view_map().insert(room_id@, None),
            !typing ==> final(self).view_map() == old(self).view_map().remove(room_id@),
    {
        let ghost e = self.rooms@;
        match find_entry(&self.rooms, room_id) {
            Some(i) => {
                proof {
                    lemma_entry_index(e, i as int);
                }
                let (k, t) = self.rooms.remove(i);
                if typing {
                    let ghost entry = (k, None::<u64>);
                    self.rooms.insert(i, (k, None));
                    proof {
                        assert(self.rooms@ =~= e.update(i as int, entry));
                        lemma_store_update(e, i as int, entry, timer_view());
                    }
                } else {
                    proof {
                        crate::store::lemma_store_remove(e, i as int, timer_view());
                    }
                }
                TypingStep { cancel: t, send: typing, arm: typing }
            },
            None => {
                if typing {
                    let entry = (owned(room_id), None);
                    proof {
                        lemma_store_push(e, entry, timer_view());
                    }
                    self.rooms.push(entry);
                } else {
                    assert(self.view_map() =~= self.view_map().remove(room_id@));
                }
                TypingStep { cancel: None, send: typing, arm: typing }
            },
        }
    }

    /// Records the idle timer armed for a room still being typed in.
    pub fn armed(&mut self, room_id: &str, handle: u64)
        requires
            old(self).wf(),
        ensures
            final(self).wf(),
            old(self).view_map().contains_key(room_id@) ==> final(self).view_map()
                == old(self).view_map().insert(room_id@, Some(handle)),
            !old(self).view_map().contains_key(room_id@) ==> final(self).view_map()
                == old(self).view_map(),
    {
        let ghost e = self.rooms@;
        if let Some(i) = find_entry(&self.rooms, room_id) {
            proof {
                lemma_entry_index(e, i as int);
            }
            let (k, _) = self.rooms.remove(i);
            let ghost entry = (k, Some(handle));
            self.rooms.insert(i, (k, Some(handle)));
            proof {
                assert(self.rooms@ =~= e.update(i as int, entry));
                lemma_store_update(e, i as int, entry, timer_view());
            }
        }
    }

    /// A room's idle timer ran out: its slot is cleared and "stopped" is
    /// sent (harmless when typing had resumed meanwhile).
    pub fn idle_elapsed(&mut self, room_id: &str) -> (send_stopped: bool)
        requires
            old(self).wf(),
        ensures
            final(self).wf(),
            send_stopped,
            old(self).view_map().contains_key(room_id@) ==> final(self).view_map()
                == old(self).view_map().insert(room_id@, None),
            !old(self).view_map().contains_key(room_id@) ==> final(self).view_map()
                == old(self).view_map(),
    {
        let ghost e = self.rooms@;
        if let Some(i) = find_entry(&self.rooms, room_id) {
            proof {
                lemma_entry_index(e, i as int);
            }
            let (k, _) = self.rooms.remove(i);
            let ghost entry = (k, None::<u64>);
            self.rooms.insert(i, (k, None));
            proof {
                assert(self.rooms@ =~= e.update(i as int, entry));
                lemma_store_update(e, i as int, entry, timer_view());
            }
        }
        true
    }

    /// Signing out: every armed timer is cancelled and every room forgotten;
    /// no "stopped" notices are sent.
    pub fn abort_all(&mut self) -> (cancel: Vec<u64>)
        requires
            old(self).wf(),
        ensures
            final(self).wf(),
            final(self).view_map() == Map::<Seq<char>, Option<u64>>::empty(),
            forall|h: u64| #[trigger] cancel@.contains(h) <==> exists|r: Seq<char>| #[trigger] old(self).timer_of(r) == Some(h),
    {
        let ghost e = self.rooms@;
        let mut cancel: Vec<u64> = Vec::new();
        for i in 0..self.rooms.len()
            invariant
                self.rooms@ == e,
                entries_distinct(e),
                forall|h: u64| #[trigger] cancel@.contains(h) <==> has_timer(e, h, i as int),
        {
            let ghost before = cancel@;
            if let Some(h) = self.rooms[i].1 {
                cancel.push(h);
            }
            proof {
                assert forall|h: u64| #[trigger] cancel@.contains(h) <==> has_timer(e, h, i + 1) by {
                    if cancel@.contains(h) {
                        let k = choose|k: int| 0 <= k < cancel@.len() && cancel@[k] == h;
                        if k < before.len() {
                            assert(before[k] == h);
                            assert(before.contains(h));
                            let j = choose|j: int| 0 <= j < i && #[trigger] e[j].1 == Some(h);
                            assert(0 <= j < i + 1 && e[j].1 == Some(h));
                        } else {
                            assert(e[i as int].1 == Some(h));
                        }
                    }
                    if has_timer(e, h, i + 1) {
                        let j = choose|j: int| 0 <= j < i + 1 && #[trigger] e[j].1 == Some(h);
                        if j == i {
                            assert(cancel@[cancel@.len() - 1] == h);
                        } else {
                            assert(has_timer(e, h, i as int));
                            assert(before.contains(h));
                            let k = choose|k: int| 0 <= k < before.len() && before[k] == h;
                            assert(cancel@[k] == h);
                        }
                    }
                }
            }
        }
        proof {
            assert forall|h: u64| #[trigger] has_timer(e, h, e.len() as int) <==> exists|r: Seq<char>| #[trigger] self.timer_of(r) == Some(h) by {
                if has_timer(e, h, e.len() as int) {
                    let j = choose|j: int| 0 <= j < e.len() && #[trigger] e[j].1 == Some(h);
                    lemma_entry_index(e, j);
                    assert(self.timer_of(e[j].0@) == Some(h));
                }
                if exists|r: Seq<char>| #[trigger] self.timer_of(r) == Some(h) {
                    let r = choose|r: Seq<char>| #[trigger] self.timer_of(r) == Some(h);
                    let j = crate::store::entry_index(e, r);
                    assert(e[j].1 == Some(h));
                }
            }
        }
        self.rooms = Vec::new();
        assert(self.view_map() =~= Map::<Seq<char>, Option<u64>>::empty());
        cancel
    }
}

/// Some of the first `n` rooms has timer `h` armed.
pub open spec fn has_timer(e: Seq<(String, Option<u64>)>, h: u64, n: int) -> bool {
    exists|j: int| 0 <= j < n && #[trigger] e[j].1 == Some(h)
}

/// Who is shown typing: a member's display name, else their user id.
pub fn typing_name(display_name: Option<&str>, user_id: &str) -> (n: String)
    ensures
        n@ == match display_name {
            Some(d) => d@,
            None => user_id@,
        },
{
    match display_name {
        Some(d) => owned(d),
        None => owned(user_id),
    }
}

pub open spec fn names_view() -> spec_fn(Vec<String>) -> Seq<Seq<char>> {
    |v: Vec<String>| strings_view(v@)
}

fn same_names(a: &Vec<String>, b: &Vec<String>) -> (r: bool)
    ensures
        r == (strings_view(a@) == strings_view(b@)),
{
    if a.len() != b.len() {
        assert(strings_view(a@).len() != strings_view(b@).len());
        return false;
    }
    for i in 0..a.len()
        invariant
            a@.len() == b@.len(),
            forall|j: int| 0 <= j < i ==> #[trigger] a@[j]@ == b@[j]@,
    {
        if !crate::text::str_eq(a[i].as_str(), b[i].as_str()) {
            assert(strings_view(a@)[i as int] != strings_view(b@)[i as int]);
            return false;
        }
    }
    assert(strings_view(a@) =~= strings_view(b@));
    true
}

/// Publishes who is typing in a room: the names replace the room's list,
/// and an empty list clears the room. Returns whether anything differs
/// from what was shown (only then is the map written).
pub fn publish_typing(typing: &mut Vec<(String, Vec<String>)>, room_id: &str, names: Vec<String>) -> (changed: bool)
    requires
        entries_distinct(old(typing)@),
    ensures
        entries_distinct(final(typing)@),
        changed == !(store_view(old(typing)@, names_view()).contains_key(room_id@)
            && store_view(old(typing)@, names_view())[room_id@] == strings_view(names@)),
        !changed ==> final(typing)@ == old(typing)@,
        changed && names@.len() == 0 ==> store_view(final(typing)@, names_view())
            == store_view(old(typing)@, names_view()).remove(room_id@),
        changed && names@.len() > 0 ==> store_view(final(typing)@, names_view())
            == store_view(old(typing)@, names_view()).insert(room_id@, strings_view(names@)),
{
    let ghost e = typing@;
    match find_entry(typing, room_id) {
        Some(i) => {
            proof {
                lemma_entry_index(e, i as int);
            }
            if same_names(&typing[i].1, &names) {
                return false;
            }
            if names.len() == 0 {
                proof {
                    crate::store::lemma_store_remove(e, i as int, names_view());
                }
                typing.remove(i);
            } else {
                let (k, _) = typing.remove(i);
                let ghost entry = (k, names);
                typing.insert(i, (k, names));
                proof {
                    assert(typing@ =~= e.update(i as int, entry));
                    crate::store::lemma_store_update(e, i as int, entry, names_view());
                }
            }
            true
        },
        None => {
            if names.len() > 0 {
                let entry = (owned(room_id), names);
                proof {
                    lemma_store_push(e, entry, names_view());
                }
                typing.push(entry);
            } else {
                assert(store_view(e, names_view()) =~= store_view(e, names_view()).remove(room_id@));
            }
            true
        },
    }
}

/// Stopping typing leaves no trace of the room, so long sessions do not
/// accumulate entries; starting again begins from a clean slot.
pub proof fn law_stop_forgets_room(m: Map<Seq<char>, Option<u64>>, room: Seq<char>)
    ensures
        !m.remove(room).contains_key(room),
        m.insert(room, None).remove(room) == m.remove(room),
{
    assert(m.insert(room, None).remove(room) =~= m.remove(room));
}

// ----------------------------------------------------------------------
// Presence
// ----------------------------------------------------------------------

/// A presence state as the server reports it.
#[derive(Debug, Clone, Copy, PartialEq, Eq, Structural)]
pub enum PresenceState {
    Online,
    Unavailable,
    Offline,
    /// Any state this client does not know.
    Unknown,
}

/// The presence dot a reported state shows; unknown states read offline.
pub fn map_presence_state(p: PresenceState) -> (r: Presence)
    ensures
        r == match p {
            PresenceState::Online => Presence::Online,
            PresenceState::Unavailable => Presence::Away,
            _ => Presence::Offline,
        },
{
    match p {
        PresenceState::Online => Presence::Online,
        PresenceState::Unavailable => Presence::Away,
        PresenceState::Offline => Presence::Offline,
        PresenceState::Unknown => Presence::Offline,
    }
}

// ----------------------------------------------------------------------
// Notifications
// ----------------------------------------------------------------------

/// What an incoming room message holds, for its notification preview.
#[derive(Debug, Clone, PartialEq, Eq)]
pub enum MessageContent {
    Text(String),
    Notice(String),
    Emote(String),
    Image,
    File,
    Audio,
    Video,
    /// Any other type, by its fallback body.
    Other(String),
}

pub open spec fn preview_body_spec(c: MessageContent) -> Seq<char> {
    match c {
        MessageContent::Text(b) => b@,
        MessageContent::Notice(b) => b@,
        MessageContent::Emote(b) => b@,
        MessageContent::Image => "[image]"@,
        MessageContent::File => "[file]"@,
        MessageContent::Audio => "[audio]"@,
        MessageContent::Video => "[video]"@,
        MessageContent::Other(b) => b@,
    }
}

/// The text a notification shows for a message: its body, or a bracketed
/// kind for media.
pub fn preview_body(content: &MessageContent) -> (r: String)
    ensures
        r@ == preview_body_spec(*content),
{
    match content {
        MessageContent::Text(b) => owned(b.as_str()),
        MessageContent::Notice(b) => owned(b.as_str()),
        MessageContent::Emote(b) => owned(b.as_str()),
        MessageContent::Image => owned("[image]"),
        MessageContent::File => owned("[file]"),
        MessageContent::Audio => owned("[audio]"),
        MessageContent::Video => owned("[video]"),
        MessageContent::Other(b) => owned(b.as_str()),
    }
}

/// `s` cut to `max` characters with an ellipsis when it is longer.
pub open spec fn truncate_spec(s: Seq<char>, max: nat) -> Seq<char> {
    if s.len() <= max {
        s
    } else {
        s.take(max as int).push('\u{2026}')
    }
}

/// Cuts `s` to `max` characters (by character count), marking the cut with
/// an ellipsis.
pub fn truncate(s: String, max: usize) -> (r: String)
    ensures
        r@ == truncate_spec(s@, max as nat),
{
    let v = chars_of(s.as_str());
    if v.len() <= max {
        return s;
    }
    let mut t = crate::text::slice_vec(&v, 0, max);
    t.push('\u{2026}');
    assert(t@ =~= s@.take(max as int).push('\u{2026}'));
    string_from_chars(t.as_slice())
}

/// Whether a message gets a desktop notification: never for the user's own
/// messages, nor while the window has focus, nor for the room on screen.
pub open spec fn should_notify_spec(
    own_id: Option<Seq<char>>,
    sender: Seq<char>,
    focused: bool,
    active_room: Option<Seq<char>>,
    room_id: Seq<char>,
) -> bool {
    &&& own_id != Some(sender)
    &&& !focused
    &&& active_room != Some(room_id)
}

pub fn should_notify(
    own_id: Option<&str>,
    sender: &str,
    focused: bool,
    active_room: Option<&str>,
    room_id: &str,
) -> (r: bool)
    ensures
        r == should_notify_spec(
            crate::media_cache::opt_str_view(own_id),
            sender@,
            focused,
            crate::media_cache::opt_str_view(active_room),
            room_id@,
        ),
{
    if let Some(o) = own_id {
        if crate::text::str_eq(o, sender) {
            return false;
        }
    }
    if focused {
        return false;
    }
    if let Some(a) = active_room {
        if crate::text::str_eq(a, room_id) {
            return false;
        }
    }
    true
}

/// Title and text of a message's notification: the sender's display name
/// (their user id without one) and the preview cut to its length.
pub fn notification_content(sender: &str, display_name: Option<String>, content: &MessageContent) -> (r: (String, String))
    ensures
        r.0@ == match display_name {
            Some(n) => n@,
            None => sender@,
        },
        r.1@ == truncate_spec(preview_body_spec(*content), PREVIEW_CHARS as nat),
{
    let title = match display_name {
        Some(n) => n,
        None => owned(sender),
    };
    (title, truncate(preview_body(content), PREVIEW_CHARS))
}


/// A media message's notification names its own kind: `[image]`,
/// `[file]`, `[audio]`, `[video]`, and no two kinds read alike; a text,
/// notice or emote shows its body.
pub proof fn law_media_previews_name_their_kind(c: MessageContent, d: MessageContent)
    ensures
        preview_body_spec(MessageContent::Image) == "[image]"@,
        preview_body_spec(MessageContent::File) == "[file]"@,
        preview_body_spec(MessageContent::Audio) == "[audio]"@,
        preview_body_spec(MessageContent::Video) == "[video]"@,
        c matches MessageContent::Text(b) ==> preview_body_spec(c) == b@,
        c matches MessageContent::Notice(b) ==> preview_body_spec(c) == b@,
        c matches MessageContent::Emote(b) ==> preview_body_spec(c) == b@,
        (c is Image || c is File || c is Audio || c is Video) && (d is Image || d is File || d is Audio || d is Video)
            && c != d ==> preview_body_spec(c) != preview_body_spec(d),
{
    reveal_strlit("[image]");
    reveal_strlit("[file]");
    reveal_strlit("[audio]");
    reveal_strlit("[video]");
    if (c is Image || c is File || c is Audio || c is Video) && (d is Image || d is File || d is Audio || d is Video)
        && c != d && preview_body_spec(c) == preview_body_spec(d) {
        assert(preview_body_spec(c)[1] == preview_body_spec(d)[1]);
    }
}

} // verus!
