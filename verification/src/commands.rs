//! The backend's command loop decides, for each request the UI sends,
//! whether it can run: requests that need a signed-in account are refused
//! without one, a blank display name is refused before anything else, and
//! the current session cannot be deleted (that is signing out). Requests
//! that only act on a live session are skipped quietly without one.

use vstd::prelude::*;

use crate::error::{ClientError, ClientErrorKind};
use crate::model::Me;
use crate::text::{chars_of, push_str, str_eq, string_from_chars, trim_vec};

verus! {

/// A request to the backend, with the parts the decision reads.
#[derive(Debug, Clone, PartialEq, Eq)]
pub enum Request {
    Ping(String),
    Login,
    Restore,
    Logout,
    WhoAmI,
    BindState,
    OpenTimeline,
    CloseTimeline,
    LoadOlder,
    SendMessage,
    MediaUri,
    SaveAttachment,
    SendThreadReply,
    ToggleReaction,
    RetrySend,
    DiscardSend,
    FetchThread,
    OpenThread,
    CloseThread,
    SetTyping,
    MarkRead,
    StartVerification,
    VerificationAction,
    FetchDevices,
    PublicRooms,
    PublicSpaces,
    JoinRoom,
    LeaveRoom,
    /// The requested display name.
    SetDisplayName(String),
    SetAvatar,
    RenameDevice,
    /// The id of the session to delete.
    DeleteDevice(String),
    NotificationRules,
    SetNotificationRule,
    GetPrefs,
    SetPrefs,
    MediaCacheBytes,
    ClearMediaCache,
}

/// What the loop does with a request.
#[derive(Debug, Clone, PartialEq, Eq)]
pub enum Gate {
    /// Carry it out.
    Run,
    /// Answer it with this error at once.
    Refuse(ClientError),
    /// Drop it quietly (it only acts on a live session).
    Skip,
    /// Show the verification dialog failed: not signed in.
    FailVerification,
}

/// Requests answered with an error when no account is signed in.
pub open spec fn needs_account(r: Request) -> bool {
    match r {
        Request::MediaUri | Request::SaveAttachment | Request::FetchDevices | Request::PublicRooms
        | Request::PublicSpaces | Request::JoinRoom | Request::LeaveRoom | Request::SetDisplayName(_)
        | Request::SetAvatar | Request::RenameDevice | Request::DeleteDevice(_) | Request::NotificationRules
        | Request::SetNotificationRule => true,
        _ => false,
    }
}

/// The decision for a request, given whether an account is signed in (and
/// its session id, when known) and whether the UI state is bound.
pub open spec fn gate_spec(r: Request, signed_in: bool, own_device: Option<Seq<char>>, bound: bool) -> GateView {
    match r {
        Request::SetDisplayName(name) if crate::text::trim(name@).len() == 0 => GateView::Refuse(
            ClientErrorKind::Invalid,
            "Display name cannot be empty."@,
        ),
        Request::DeleteDevice(id) if signed_in && own_device == Some(id@) => GateView::Refuse(
            ClientErrorKind::Invalid,
            "Sign out instead of deleting this session."@,
        ),
        _ => if needs_account(r) && !signed_in {
            GateView::Refuse(ClientErrorKind::Auth, "Not signed in."@)
        } else {
            match r {
                Request::OpenTimeline | Request::MarkRead => if signed_in && bound {
                    GateView::Run
                } else {
                    GateView::Skip
                },
                Request::SetTyping => if signed_in { GateView::Run } else { GateView::Skip },
                Request::OpenThread => if bound { GateView::Run } else { GateView::Skip },
                Request::StartVerification => if signed_in && bound {
                    GateView::Run
                } else if bound {
                    GateView::FailVerification
                } else {
                    GateView::Skip
                },
                _ => GateView::Run,
            }
        },
    }
}

/// A decision as plain values.
pub enum GateView {
    Run,
    Refuse(ClientErrorKind, Seq<char>),
    Skip,
    FailVerification,
}

pub open spec fn gate_view(g: Gate) -> GateView {
    match g {
        Gate::Run => GateView::Run,
        Gate::Refuse(e) => GateView::Refuse(e.kind, e.message@),
        Gate::Skip => GateView::Skip,
        Gate::FailVerification => GateView::FailVerification,
    }
}

fn needs_account_exec(r: &Request) -> (b: bool)
    ensures
        b == needs_account(*r),
{
    match r {
        Request::MediaUri | Request::SaveAttachment | Request::FetchDevices | Request::PublicRooms
        | Request::PublicSpaces | Request::JoinRoom | Request::LeaveRoom | Request::SetDisplayName(_)
        | Request::SetAvatar | Request::RenameDevice | Request::DeleteDevice(_) | Request::NotificationRules
        | Request::SetNotificationRule => true,
        _ => false,
    }
}

/// Decides what the command loop does with a request.
pub fn gate(r: &Request, signed_in: bool, own_device: Option<&str>, bound: bool) -> (g: Gate)
    ensures
        gate_view(g) == gate_spec(*r, signed_in, match own_device { Some(d) => Some(d@), None => None }, bound),
{
    if let Request::SetDisplayName(name) = r {
        if trim_vec(&chars_of(name.as_str())).len() == 0 {
            return Gate::Refuse(ClientError::invalid("Display name cannot be empty."));
        }
    }
    if let Request::DeleteDevice(id) = r {
        if signed_in {
            if let Some(d) = own_device {
                if str_eq(d, id.as_str()) {
                    return Gate::Refuse(ClientError::invalid("Sign out instead of deleting this session."));
                }
            }
        }
    }
    if needs_account_exec(r) && !signed_in {
        return Gate::Refuse(ClientError::auth("Not signed in."));
    }
    match r {
        Request::OpenTimeline | Request::MarkRead => if signed_in && bound {
            Gate::Run
        } else {
            Gate::Skip
        },
        Request::SetTyping => if signed_in { Gate::Run } else { Gate::Skip },
        Request::OpenThread => if bound { Gate::Run } else { Gate::Skip },
        Request::StartVerification => if signed_in && bound {
            Gate::Run
        } else if bound {
            Gate::FailVerification
        } else {
            Gate::Skip
        },
        _ => Gate::Run,
    }
}

/// Signed out, every request that needs an account is refused with an
/// authentication error, except a blank display name, which is refused as
/// invalid first.
pub proof fn law_signed_out_requests_are_refused(r: Request, own_device: Option<Seq<char>>, bound: bool)
    requires
        needs_account(r),
        !(r matches Request::SetDisplayName(n) && crate::text::trim(n@).len() == 0),
    ensures
        gate_spec(r, false, own_device, bound) == GateView::Refuse(ClientErrorKind::Auth, "Not signed in."@),
{
}

/// The answer to a ping: `pong:{payload}`.
pub fn pong(payload: &str) -> (s: String)
    ensures
        s@ == "pong:"@ + payload@,
{
    let mut v: Vec<char> = Vec::new();
    push_str(&mut v, "pong:");
    push_str(&mut v, payload);
    string_from_chars(v.as_slice())
}

/// Who is signed in: the profile as last refreshed by a profile save, else
/// as captured at sign-in; nobody before sign-in.
pub fn whoami(fresh: &Option<Me>, signed_in: &Option<Me>) -> (r: Option<Me>)
    ensures
        r == match *fresh {
            Some(m) => Some(m),
            None => *signed_in,
        },
{
    match fresh {
        Some(m) => Some(crate::model::Duplicate::duplicate(m)),
        None => crate::model::Duplicate::duplicate(signed_in),
    }
}

} // verus!
