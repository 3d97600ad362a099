//! Deleting a session with the account password: the homeserver answers
//! the first attempt with an interactive-auth challenge, which is completed
//! with the password stage. Credentials never appear in error messages.

use vstd::prelude::*;

use crate::error::{ClientError, ClientErrorKind};

verus! {

pub const GENERIC: &'static str = "Could not complete the request \u{2014} try again.";
pub const BAD_PASSWORD: &'static str = "Incorrect password \u{2014} try again.";
pub const NO_PASSWORD_FLOW: &'static str = "This account does not allow password confirmation (SSO-only homeserver).";
pub const PASSWORD_STAGE: &'static str = "m.login.password";

/// Whether some flow of a challenge contains the password stage.
pub open spec fn has_password_stage(flows: Seq<Seq<Seq<char>>>) -> bool {
    exists|i: int, j: int| 0 <= i < flows.len() && 0 <= j < flows[i].len() && #[trigger] flows[i][j] == PASSWORD_STAGE@
}

pub open spec fn flows_view(flows: Seq<Vec<String>>) -> Seq<Seq<Seq<char>>> {
    flows.map_values(|f: Vec<String>| crate::model::strings_view(f@))
}

/// Whether the challenge offers a password stage (SSO-only accounts do
/// not), so the dialog can say so before the user types anything.
pub fn password_stage_available(flows: &Vec<Vec<String>>) -> (r: bool)
    ensures
        r == has_password_stage(flows_view(flows@)),
{
    let ghost fv = flows_view(flows@);
    for i in 0..flows.len()
        invariant
            fv == flows_view(flows@),
            forall|a: int, b: int| 0 <= a < i && 0 <= b < fv[a].len() ==> #[trigger] fv[a][b] != PASSWORD_STAGE@,
    {
        let flow = &flows[i];
        assert(fv[i as int] == crate::model::strings_view(flow@));
        for j in 0..flow.len()
            invariant
                i < flows@.len(),
                fv == flows_view(flows@),
                fv[i as int] == crate::model::strings_view(flow@),
                flow == flows@[i as int],
                forall|a: int, b: int| 0 <= a < i && 0 <= b < fv[a].len() ==> #[trigger] fv[a][b] != PASSWORD_STAGE@,
                forall|b: int| 0 <= b < j ==> #[trigger] fv[i as int][b] != PASSWORD_STAGE@,
        {
            assert(fv[i as int][j as int] == flow@[j as int]@);
            if crate::text::str_eq(flow[j].as_str(), PASSWORD_STAGE) {
                assert(fv[i as int][j as int] == PASSWORD_STAGE@);
                return true;
            }
        }
    }
    false
}

/// How an attempt to delete a session ended.
#[derive(Debug, Clone, PartialEq, Eq)]
pub enum DeleteAttempt {
    Deleted,
    /// The server asks for interactive auth: its flows (each a list of
    /// stages) and the session to echo.
    Challenge { flows: Vec<Vec<String>>, session: Option<String> },
    Failed,
}

/// What to do after the first attempt (made without auth data).
#[derive(Debug, Clone, PartialEq, Eq)]
pub enum DeleteStep {
    Done,
    /// Retry with the password stage, echoing the challenge's session.
    RetryWithPassword { session: Option<String> },
    Fail(ClientError),
}

pub fn after_first_attempt(a: DeleteAttempt) -> (s: DeleteStep)
    ensures
        a is Deleted ==> s is Done,
        a is Failed ==> (s matches DeleteStep::Fail(e) && e.kind == ClientErrorKind::Server && e.message@ == GENERIC@),
        a matches DeleteAttempt::Challenge { flows, session } ==> if has_password_stage(flows_view(flows@)) {
            s == DeleteStep::RetryWithPassword { session }
        } else {
            (s matches DeleteStep::Fail(e) && e.kind == ClientErrorKind::Unsupported && e.message@ == NO_PASSWORD_FLOW@)
        },
{
    match a {
        DeleteAttempt::Deleted => DeleteStep::Done,
        DeleteAttempt::Failed => DeleteStep::Fail(ClientError::server(GENERIC)),
        DeleteAttempt::Challenge { flows, session } => {
            if password_stage_available(&flows) {
                DeleteStep::RetryWithPassword { session }
            } else {
                DeleteStep::Fail(ClientError::unsupported(NO_PASSWORD_FLOW))
            }
        },
    }
}

/// The outcome of the retry with the password: a second challenge means the
/// password was wrong.
pub fn after_password_attempt(a: DeleteAttempt) -> (r: Result<(), ClientError>)
    ensures
        a is Deleted ==> r is Ok,
        a is Challenge ==> (r matches Err(e) && e.kind == ClientErrorKind::Auth && e.message@ == BAD_PASSWORD@),
        a is Failed ==> (r matches Err(e) && e.kind == ClientErrorKind::Server && e.message@ == GENERIC@),
{
    match a {
        DeleteAttempt::Deleted => Ok(()),
        DeleteAttempt::Challenge { .. } => Err(ClientError::auth(BAD_PASSWORD)),
        DeleteAttempt::Failed => Err(ClientError::server(GENERIC)),
    }
}

} // verus!
