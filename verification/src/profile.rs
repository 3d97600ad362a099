//! What the profile panel shows: a room or direct message, someone
//! mentioned in a room, or the signed-in account.

use vstd::prelude::*;

use crate::model::{Convo, ConvoKind, Duplicate, Me, Presence, VerificationSession, VerificationState, VerificationTarget};
use crate::store::{entries_distinct, find_entry, lemma_entry_index, store_view};
use crate::text::owned;

verus! {

/// The subject of the profile panel.
#[derive(Debug, Clone, PartialEq)]
pub struct ProfileTarget {
    pub id: Option<String>,
    pub name: String,
    pub mxid: Option<String>,
    pub status: Option<Presence>,
    pub is_room: bool,
    pub topic: Option<String>,
    pub members: Option<u32>,
    pub encrypted: bool,
    /// Room or counterpart avatar; initials without one.
    pub avatar: Option<String>,
}

/// The profile of a room or a direct message.
pub open spec fn convo_profile(c: Convo) -> ProfileTarget {
    ProfileTarget {
        id: Some(c.id),
        name: c.name,
        mxid: c.mxid,
        status: c.status,
        is_room: c.kind == ConvoKind::Room,
        topic: c.topic,
        members: c.members,
        encrypted: c.encrypted,
        avatar: c.avatar,
    }
}

impl ProfileTarget {
    /// The profile of a room or a direct message.
    pub fn from_convo(c: Convo) -> (t: ProfileTarget)
        ensures
            t == convo_profile(c),
    {
        let is_room = c.is_room();
        ProfileTarget {
            id: Some(c.id),
            name: c.name,
            mxid: c.mxid,
            status: c.status,
            is_room,
            topic: c.topic,
            members: c.members,
            encrypted: c.encrypted,
            avatar: c.avatar,
        }
    }

    /// Someone mentioned in a room, shown online.
    pub fn person(name: &str, mxid: &str) -> (t: ProfileTarget)
        ensures
            t.id is None,
            t.name@ == name@,
            crate::model::opt_view(t.mxid) == Some(mxid@),
            t.status == Some(Presence::Online),
            !t.is_room,
            t.topic is None,
            t.members is None,
            !t.encrypted,
            t.avatar is None,
    {
        ProfileTarget {
            id: None,
            name: owned(name),
            mxid: Some(owned(mxid)),
            status: Some(Presence::Online),
            is_room: false,
            topic: None,
            members: None,
            encrypted: false,
            avatar: None,
        }
    }

    /// The signed-in account, with its avatar when known.
    pub fn own(me: &Me) -> (t: ProfileTarget)
        ensures
            t.id is None,
            t.name == me.name,
            t.mxid == Some(me.id),
            t.status == Some(Presence::Online),
            !t.is_room,
            t.topic is None,
            t.members is None,
            !t.encrypted,
            t.avatar == me.avatar,
    {
        ProfileTarget {
            id: None,
            name: me.name.duplicate(),
            mxid: Some(me.id.duplicate()),
            status: Some(Presence::Online),
            is_room: false,
            topic: None,
            members: None,
            encrypted: false,
            avatar: me.avatar.duplicate(),
        }
    }
}

/// Whether the dialog's session verified this contact: a session against
/// the contact's user id (not a device of one's own) that is done.
pub fn verifies_contact(session: &Option<VerificationSession>, mxid: &str) -> (b: bool)
    ensures
        b == (session matches Some(s) && s.state == VerificationState::Done && (s.target matches VerificationTarget::User(u) && u@ == mxid@)),
{
    match session {
        Some(s) => {
            let done = match s.state {
                VerificationState::Done => true,
                _ => false,
            };
            done && match &s.target {
                VerificationTarget::User(u) => crate::text::str_eq(u.as_str(), mxid),
                VerificationTarget::Device(_) => false,
            }
        },
        None => false,
    }
}

pub open spec fn presence_id() -> spec_fn(Presence) -> Presence {
    |p: Presence| p
}

/// The panel's status dot: live presence for the contact's id (the empty
/// id when it has none), else the snapshot status, else offline.
pub fn panel_presence(t: &ProfileTarget, presence: &Vec<(String, Presence)>) -> (p: Presence)
    requires
        entries_distinct(presence@),
    ensures
        ({
            let id = match t.mxid {
                Some(m) => m@,
                None => Seq::<char>::empty(),
            };
            let live = store_view(presence@, presence_id());
            p == if live.contains_key(id) {
                live[id]
            } else {
                match t.status {
                    Some(s) => s,
                    None => Presence::Offline,
                }
            }
        }),
{
    let id: &str = match &t.mxid {
        Some(m) => m.as_str(),
        None => "",
    };
    proof {
        reveal_strlit("");
    }
    assert(id@ == match t.mxid {
        Some(m) => m@,
        None => Seq::<char>::empty(),
    });
    match find_entry(presence, id) {
        Some(i) => {
            proof {
                lemma_entry_index(presence@, i as int);
            }
            presence[i].1
        },
        None => match t.status {
            Some(s) => s,
            None => Presence::Offline,
        },
    }
}

/// The line under the panel's name: a room's topic, a person's id (empty
/// when unknown).
pub fn panel_subtitle(t: &ProfileTarget) -> (s: String)
    ensures
        s@ == if t.is_room {
            match t.topic {
                Some(x) => x@,
                None => Seq::<char>::empty(),
            }
        } else {
            match t.mxid {
                Some(m) => m@,
                None => Seq::<char>::empty(),
            }
        },
{
    let src = if t.is_room { &t.topic } else { &t.mxid };
    match src {
        Some(x) => x.duplicate(),
        None => String::new(),
    }
}

} // verus!
