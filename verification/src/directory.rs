//! The public room directory: search terms, directory rows as shown, and
//! the messages a failed join or leave reads as.

use vstd::prelude::*;

use crate::error::{ClientError, ClientErrorKind};
use crate::model::{opt_view, Duplicate, PublicRoom, PublicSpace};
use crate::text::{chars_of, dec, owned, push_dec, push_str, string_from_chars, trim, trim_vec};

verus! {

/// Rows asked of the server per directory page.
pub const DIRECTORY_PAGE_SIZE: u32 = 20;

/// One directory entry as the server returns it.
#[derive(Debug, Clone, PartialEq, Eq)]
pub struct RoomChunk {
    pub room_id: String,
    pub name: Option<String>,
    pub canonical_alias: Option<String>,
    pub num_joined_members: u64,
    pub topic: Option<String>,
    /// Whether the room is a space.
    pub is_space: bool,
}

/// The search term sent for a query: the trimmed query, or none for a
/// blank one.
pub fn search_term(query: &str) -> (r: Option<String>)
    ensures
        trim(query@).len() == 0 ==> r is None,
        trim(query@).len() > 0 ==> opt_view(r) == Some(trim(query@)),
{
    let t = trim_vec(&chars_of(query));
    if t.len() == 0 {
        None
    } else {
        Some(string_from_chars(t.as_slice()))
    }
}

/// The name a row shows: its name, else its canonical alias, else its id.
pub open spec fn display_name_spec(c: RoomChunk) -> Seq<char> {
    match c.name {
        Some(n) => n@,
        None => match c.canonical_alias {
            Some(a) => a@,
            None => c.room_id@,
        },
    }
}

pub fn chunk_display_name(chunk: &RoomChunk) -> (r: String)
    ensures
        r@ == display_name_spec(*chunk),
{
    match &chunk.name {
        Some(n) => n.duplicate(),
        None => match &chunk.canonical_alias {
            Some(a) => a.duplicate(),
            None => chunk.room_id.duplicate(),
        },
    }
}

/// The member count a row shows, capped at `u32::MAX`.
pub fn member_count(chunk: &RoomChunk) -> (r: u32)
    ensures
        r == if chunk.num_joined_members <= u32::MAX { chunk.num_joined_members as u32 } else { u32::MAX },
{
    if chunk.num_joined_members <= u32::MAX as u64 {
        chunk.num_joined_members as u32
    } else {
        u32::MAX
    }
}

pub open spec fn topic_or_empty(c: RoomChunk) -> Seq<char> {
    match c.topic {
        Some(t) => t@,
        None => seq![],
    }
}

fn topic_text(chunk: &RoomChunk) -> (r: String)
    ensures
        r@ == topic_or_empty(*chunk),
{
    match &chunk.topic {
        Some(t) => t.duplicate(),
        None => String::new(),
    }
}

/// A directory entry as a room row.
pub fn chunk_to_room(chunk: &RoomChunk) -> (r: PublicRoom)
    ensures
        r.id@ == chunk.room_id@,
        r.name@ == display_name_spec(*chunk),
        r.members == if chunk.num_joined_members <= u32::MAX { chunk.num_joined_members as u32 } else { u32::MAX },
        r.topic@ == topic_or_empty(*chunk),
{
    PublicRoom {
        id: chunk.room_id.duplicate(),
        name: chunk_display_name(chunk),
        members: member_count(chunk),
        topic: topic_text(chunk),
    }
}

/// A directory entry as a space row.
pub fn chunk_to_space(chunk: &RoomChunk) -> (r: PublicSpace)
    ensures
        r.id@ == chunk.room_id@,
        r.name@ == display_name_spec(*chunk),
        r.members == if chunk.num_joined_members <= u32::MAX { chunk.num_joined_members as u32 } else { u32::MAX },
        r.topic@ == topic_or_empty(*chunk),
{
    PublicSpace {
        id: chunk.room_id.duplicate(),
        name: chunk_display_name(chunk),
        members: member_count(chunk),
        topic: topic_text(chunk),
    }
}

/// A page of room rows, in the server's order.
pub fn rooms_of(chunks: &Vec<RoomChunk>) -> (r: Vec<PublicRoom>)
    ensures
        r@.len() == chunks@.len(),
        forall|i: int| #![trigger r@[i]] 0 <= i < r@.len() ==> {
            &&& r@[i].id@ == chunks@[i].room_id@
            &&& r@[i].name@ == display_name_spec(chunks@[i])
            &&& r@[i].topic@ == topic_or_empty(chunks@[i])
        },
{
    let mut r: Vec<PublicRoom> = Vec::new();
    for i in 0..chunks.len()
        invariant
            r@.len() == i,
            forall|k: int| #![trigger r@[k]] 0 <= k < i ==> {
                &&& r@[k].id@ == chunks@[k].room_id@
                &&& r@[k].name@ == display_name_spec(chunks@[k])
                &&& r@[k].topic@ == topic_or_empty(chunks@[k])
            },
    {
        r.push(chunk_to_room(&chunks[i]));
    }
    r
}

/// A page of space rows: the spaces among the entries, in the server's
/// order (for servers that ignore the space filter).
pub fn spaces_of(chunks: &Vec<RoomChunk>) -> (r: Vec<PublicSpace>)
    ensures
        r@.len() == chunks@.filter(|c: RoomChunk| c.is_space).len(),
        forall|i: int| #![trigger r@[i]] 0 <= i < r@.len() ==> {
            let c = chunks@.filter(|c: RoomChunk| c.is_space)[i];
            &&& r@[i].id@ == c.room_id@
            &&& r@[i].name@ == display_name_spec(c)
            &&& r@[i].topic@ == topic_or_empty(c)
        },
{
    let ghost pred = |c: RoomChunk| c.is_space;
    let mut r: Vec<PublicSpace> = Vec::new();
    for i in 0..chunks.len()
        invariant
            pred == (|c: RoomChunk| c.is_space),
            r@.len() == chunks@.take(i as int).filter(pred).len(),
            forall|k: int| #![trigger r@[k]] 0 <= k < r@.len() ==> {
                let c = chunks@.take(i as int).filter(pred)[k];
                &&& r@[k].id@ == c.room_id@
                &&& r@[k].name@ == display_name_spec(c)
                &&& r@[k].topic@ == topic_or_empty(c)
            },
    {
        proof {
            assert(chunks@.take(i + 1).drop_last() =~= chunks@.take(i as int));
            reveal(Seq::filter);
        }
        if chunks[i].is_space {
            r.push(chunk_to_space(&chunks[i]));
        }
    }
    assert(chunks@.take(chunks@.len() as int) =~= chunks@);
    r
}

// ----------------------------------------------------------------------
// Join and leave errors
// ----------------------------------------------------------------------

/// Why the server refused a join.
#[derive(Debug, Clone, PartialEq, Eq)]
pub enum JoinFailure {
    /// Rate limited; with the delay it asked for, in seconds, when it gave one.
    RateLimited { retry_after_secs: Option<u64> },
    Forbidden,
    /// Anything else, by its description.
    Other(String),
}

/// The message a refused join reads as.
pub open spec fn join_error_message(f: JoinFailure) -> Seq<char> {
    match f {
        JoinFailure::RateLimited { retry_after_secs } => "Rate limited \u{2014} you're joining rooms too fast."@
            + match retry_after_secs {
            Some(s) => " Try again in "@ + dec(if s >= 1 { s as nat } else { 1 }) + " seconds."@,
            None => " Try again in a moment."@,
        },
        JoinFailure::Forbidden => "You can't join that room (invite-only?)."@,
        JoinFailure::Other(e) => "Could not join: "@ + e@,
    }
}

/// The error a refused join is reported as.
pub fn join_error(f: &JoinFailure) -> (e: ClientError)
    ensures
        e.message@ == join_error_message(*f),
        e.kind == match *f {
            JoinFailure::RateLimited { .. } => ClientErrorKind::RateLimited,
            JoinFailure::Forbidden => ClientErrorKind::Auth,
            JoinFailure::Other(_) => ClientErrorKind::Server,
        },
{
    let mut v: Vec<char> = Vec::new();
    let kind = match f {
        JoinFailure::RateLimited { retry_after_secs } => {
            push_str(&mut v, "Rate limited \u{2014} you're joining rooms too fast.");
            match retry_after_secs {
                Some(s) => {
                    push_str(&mut v, " Try again in ");
                    let secs: u64 = if *s >= 1 { *s } else { 1 };
                    push_dec(&mut v, secs);
                    push_str(&mut v, " seconds.");
                },
                None => {
                    push_str(&mut v, " Try again in a moment.");
                },
            }
            ClientErrorKind::RateLimited
        },
        JoinFailure::Forbidden => {
            push_str(&mut v, "You can't join that room (invite-only?).");
            ClientErrorKind::Auth
        },
        JoinFailure::Other(e) => {
            push_str(&mut v, "Could not join: ");
            push_str(&mut v, e.as_str());
            ClientErrorKind::Server
        },
    };
    assert(v@ =~= join_error_message(*f));
    let message = string_from_chars(v.as_slice());
    ClientError { kind, message }
}

/// The error for a join target that is neither a room id nor an alias.
pub fn invalid_join_target(id: &str) -> (e: ClientError)
    ensures
        e.kind == ClientErrorKind::Invalid,
        e.message@ == "\u{201c}"@ + id@ + "\u{201d} is not a room id or alias."@,
{
    let mut v: Vec<char> = chars_of("\u{201c}");
    push_str(&mut v, id);
    push_str(&mut v, "\u{201d} is not a room id or alias.");
    ClientError { kind: ClientErrorKind::Invalid, message: string_from_chars(v.as_slice()) }
}

/// The error for a leave target that is not a room id.
pub fn invalid_leave_target(id: &str) -> (e: ClientError)
    ensures
        e.kind == ClientErrorKind::Invalid,
        e.message@ == "\u{201c}"@ + id@ + "\u{201d} is not a room id."@,
{
    let mut v: Vec<char> = chars_of("\u{201c}");
    push_str(&mut v, id);
    push_str(&mut v, "\u{201d} is not a room id.");
    ClientError { kind: ClientErrorKind::Invalid, message: string_from_chars(v.as_slice()) }
}

/// A failed join still counts as joined when the target is a room id the
/// account has already joined.
pub fn is_already_joined(is_room_id: bool, joined: bool) -> (r: bool)
    ensures
        r == (is_room_id && joined),
{
    is_room_id && joined
}


/// A refused join says why: a rate limit asks to wait the seconds the
/// server gave (at least one) or a moment, an invite-only room reads as
/// such, and any other failure quotes its description after `Could not
/// join: `.
pub proof fn law_join_errors_say_why(secs: u64, e: String)
    ensures
        join_error_message(JoinFailure::RateLimited { retry_after_secs: Some(secs) })
            == "Rate limited \u{2014} you're joining rooms too fast. Try again in "@ + dec(
            if secs >= 1 { secs as nat } else { 1 },
        ) + " seconds."@,
        join_error_message(JoinFailure::RateLimited { retry_after_secs: None })
            == "Rate limited \u{2014} you're joining rooms too fast. Try again in a moment."@,
        join_error_message(JoinFailure::Forbidden) == "You can't join that room (invite-only?)."@,
        join_error_message(JoinFailure::Other(e)) == "Could not join: "@ + e@,
{
    reveal_strlit("Rate limited \u{2014} you're joining rooms too fast.");
    reveal_strlit(" Try again in ");
    reveal_strlit("Rate limited \u{2014} you're joining rooms too fast. Try again in ");
    reveal_strlit(" Try again in a moment.");
    reveal_strlit("Rate limited \u{2014} you're joining rooms too fast. Try again in a moment.");
    assert("Rate limited \u{2014} you're joining rooms too fast."@ + " Try again in "@ =~= "Rate limited \u{2014} you're joining rooms too fast. Try again in "@);
    assert("Rate limited \u{2014} you're joining rooms too fast."@ + " Try again in a moment."@ =~= "Rate limited \u{2014} you're joining rooms too fast. Try again in a moment."@);
}

} // verus!
