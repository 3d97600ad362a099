//! Interactive verification with emoji short-auth strings: the decisions of
//! the driver that follows the request, the emoji exchange and the user's
//! answers, and what the dialog is shown at each step.

use vstd::prelude::*;

use crate::model::{SasEmoji, SessionView, VerificationAction, VerificationSession, VerificationState, VerificationTarget};
use crate::mock::opt_session_view;
use crate::text::{owned, push_str, string_from_chars};

verus! {

pub const FAILED: &'static str = "Verification failed \u{2014} try again in a moment.";
pub const NO_EMOJI_HERE: &'static str = "This session doesn't support emoji verification.";
pub const NO_EMOJI_THERE: &'static str = "The other side doesn't support emoji verification.";

/// Phases of the emoji exchange.
#[derive(Debug, Clone, Copy, PartialEq, Eq, Structural)]
pub enum SasPhase {
    Created,
    Started,
    Accepted,
    KeysExchanged,
    Confirmed,
    Done,
    Cancelled,
}

/// A dialog state as plain values.
pub enum StateView {
    Requested,
    Ready,
    EmojisShown,
    Confirmed,
    Done,
    Cancelled,
    Failed(Seq<char>),
}

pub open spec fn state_view(s: VerificationState) -> StateView {
    match s {
        VerificationState::Requested => StateView::Requested,
        VerificationState::Ready => StateView::Ready,
        VerificationState::EmojisShown => StateView::EmojisShown,
        VerificationState::Confirmed => StateView::Confirmed,
        VerificationState::Done => StateView::Done,
        VerificationState::Cancelled => StateView::Cancelled,
        VerificationState::Failed(m) => StateView::Failed(m@),
    }
}

/// The dialog state an emoji-exchange phase shows; keys exchanged with a
/// session that cannot show emojis is a failure.
pub open spec fn sas_state_spec(phase: SasPhase, supports_emoji: bool) -> StateView {
    match phase {
        SasPhase::Created | SasPhase::Started | SasPhase::Accepted => StateView::Ready,
        SasPhase::KeysExchanged => if supports_emoji {
            StateView::EmojisShown
        } else {
            StateView::Failed(NO_EMOJI_HERE@)
        },
        SasPhase::Confirmed => StateView::Confirmed,
        SasPhase::Done => StateView::Done,
        SasPhase::Cancelled => StateView::Cancelled,
    }
}


pub fn map_sas_state(phase: SasPhase, supports_emoji: bool) -> (s: VerificationState)
    ensures
        state_view(s) == sas_state_spec(phase, supports_emoji),
{
    match phase {
        SasPhase::Created | SasPhase::Started | SasPhase::Accepted => VerificationState::Ready,
        SasPhase::KeysExchanged => if supports_emoji {
            VerificationState::EmojisShown
        } else {
            VerificationState::Failed(owned(NO_EMOJI_HERE))
        },
        SasPhase::Confirmed => VerificationState::Confirmed,
        SasPhase::Done => VerificationState::Done,
        SasPhase::Cancelled => VerificationState::Cancelled,
    }
}

/// The session shown when a verification starts: requested, no emojis yet.
pub fn started_session(subject: String, target: VerificationTarget) -> (s: VerificationSession)
    ensures
        s.subject == subject,
        s.target == target,
        s.state == VerificationState::Requested,
        s.emojis@.len() == 0,
{
    VerificationSession { subject, target, state: VerificationState::Requested, emojis: Vec::new() }
}

/// The shown session moved to `new_state`, with its emojis replaced when
/// new ones are given; no session stays no session.
pub fn publish(
    session: Option<VerificationSession>,
    new_state: VerificationState,
    emojis: Option<Vec<SasEmoji>>,
) -> (r: Option<VerificationSession>)
    ensures
        session is None ==> r is None,
        session matches Some(s) ==> opt_session_view(r) == Some(SessionView {
            state: new_state,
            emojis: match emojis {
                Some(e) => e@,
                None => s@.emojis,
            },
            ..s@
        }),
{
    match session {
        Some(mut s) => {
            s.state = new_state;
            if let Some(e) = emojis {
                s.emojis = e;
            }
            Some(s)
        },
        None => None,
    }
}

/// Phases of the verification request.
#[derive(Debug, Clone, Copy, PartialEq, Eq, Structural)]
pub enum RequestPhase {
    Created,
    Requested,
    Ready,
    /// Moved on to a verification method; `has_sas` when it is the emoji one.
    Transitioned { has_sas: bool },
    Done,
    Cancelled,
}

/// What the driver learns next.
#[derive(Debug, Clone, Copy, PartialEq, Eq, Structural)]
pub enum FlowEvent {
    Request(RequestPhase),
    /// Starting the emoji exchange after the request got ready: started,
    /// with its phase and whether it can show emojis; or refused because
    /// the other side has no emoji support.
    SasStarted { phase: SasPhase, supports_emoji: bool },
    SasUnsupported,
    /// Starting failed; the request's own transition will bring the exchange.
    SasStartFailed,
    Sas(SasPhase),
    Action(VerificationAction),
    /// How the exchange took the user's answer.
    ActionDone { action: VerificationAction, ok: bool },
    /// A stream ended or the user side went away.
    Ended,
}

/// What the driver does in response.
#[derive(Debug, Clone, PartialEq, Eq)]
pub struct FlowStep {
    /// Show this state, with the exchange's emojis when `with_emojis`.
    pub publish: Option<VerificationState>,
    pub with_emojis: bool,
    /// Start the emoji exchange.
    pub start_sas: bool,
    /// Cancel the request (no exchange to cancel yet).
    pub cancel_request: bool,
    /// Hand the user's answer to the exchange.
    pub sas_action: Option<VerificationAction>,
    /// The driver stops.
    pub finished: bool,
    /// Whether an exchange is running from now on.
    pub has_sas: bool,
}

/// A driver response as plain values.
pub struct StepView {
    pub publish: Option<StateView>,
    pub with_emojis: bool,
    pub start_sas: bool,
    pub cancel_request: bool,
    pub sas_action: Option<VerificationAction>,
    pub finished: bool,
    pub has_sas: bool,
}

impl FlowStep {
    pub open spec fn spec(self) -> StepView {
        StepView {
            publish: match self.publish {
                Some(st) => Some(state_view(st)),
                None => None,
            },
            with_emojis: self.with_emojis,
            start_sas: self.start_sas,
            cancel_request: self.cancel_request,
            sas_action: self.sas_action,
            finished: self.finished,
            has_sas: self.has_sas,
        }
    }
}

pub open spec fn nothing(has_sas: bool) -> StepView {
    StepView { publish: None, with_emojis: false, start_sas: false, cancel_request: false, sas_action: None, finished: false, has_sas }
}

pub open spec fn show(st: StateView, with_emojis: bool, finished: bool, has_sas: bool) -> StepView {
    StepView { publish: Some(st), with_emojis, start_sas: false, cancel_request: false, sas_action: None, finished, has_sas }
}

/// One decision of the driver (`Failed` messages are compared by text).
pub open spec fn flow_spec(has_sas: bool, e: FlowEvent) -> StepView {
    match e {
        FlowEvent::Request(p) => match p {
            RequestPhase::Created | RequestPhase::Requested => nothing(has_sas),
            RequestPhase::Ready => StepView { start_sas: true, ..nothing(has_sas) },
            RequestPhase::Transitioned { has_sas: t } => nothing(has_sas || t),
            RequestPhase::Done => show(StateView::Done, false, true, has_sas),
            RequestPhase::Cancelled => show(StateView::Cancelled, false, true, has_sas),
        },
        FlowEvent::SasStarted { phase, supports_emoji } => show(sas_state_spec(phase, supports_emoji), true, false, true),
        FlowEvent::SasUnsupported => show(StateView::Failed(NO_EMOJI_THERE@), false, true, has_sas),
        FlowEvent::SasStartFailed => nothing(has_sas),
        FlowEvent::Sas(p) => match p {
            SasPhase::KeysExchanged => if has_sas {
                show(StateView::EmojisShown, true, false, has_sas)
            } else {
                nothing(has_sas)
            },
            SasPhase::Confirmed => show(StateView::Confirmed, false, false, has_sas),
            SasPhase::Done => show(StateView::Done, false, true, has_sas),
            SasPhase::Cancelled => show(StateView::Cancelled, false, true, has_sas),
            _ => nothing(has_sas),
        },
        FlowEvent::Action(a) => if has_sas {
            StepView { sas_action: Some(a), ..nothing(has_sas) }
        } else if a == VerificationAction::Confirm {
            nothing(has_sas)
        } else {
            StepView { cancel_request: true, ..show(StateView::Cancelled, false, true, has_sas) }
        },
        FlowEvent::ActionDone { action, ok } => if !ok {
            show(StateView::Failed(FAILED@), false, true, has_sas)
        } else if action == VerificationAction::Cancel {
            show(StateView::Cancelled, false, true, has_sas)
        } else {
            nothing(has_sas)
        },
        FlowEvent::Ended => StepView { finished: true, ..nothing(has_sas) },
    }
}

fn show_exec(st: VerificationState, with_emojis: bool, finished: bool, has_sas: bool) -> (s: FlowStep)
    ensures
        s.spec() == show(state_view(st), with_emojis, finished, has_sas),
{
    FlowStep { publish: Some(st), with_emojis, start_sas: false, cancel_request: false, sas_action: None, finished, has_sas }
}

fn nothing_exec(has_sas: bool) -> (s: FlowStep)
    ensures
        s.spec() == nothing(has_sas),
{
    FlowStep { publish: None, with_emojis: false, start_sas: false, cancel_request: false, sas_action: None, finished: false, has_sas }
}

/// Decides the driver's response to an event, given whether an emoji
/// exchange is running.
pub fn flow_step(has_sas: bool, e: FlowEvent) -> (s: FlowStep)
    ensures
        s.spec() == flow_spec(has_sas, e),
{
    match e {
        FlowEvent::Request(p) => match p {
            RequestPhase::Created | RequestPhase::Requested => nothing_exec(has_sas),
            RequestPhase::Ready => {
                let mut s = nothing_exec(has_sas);
                s.start_sas = true;
                s
            },
            RequestPhase::Transitioned { has_sas: t } => nothing_exec(has_sas || t),
            RequestPhase::Done => show_exec(VerificationState::Done, false, true, has_sas),
            RequestPhase::Cancelled => show_exec(VerificationState::Cancelled, false, true, has_sas),
        },
        FlowEvent::SasStarted { phase, supports_emoji } => show_exec(map_sas_state(phase, supports_emoji), true, false, true),
        FlowEvent::SasUnsupported => show_exec(VerificationState::Failed(owned(NO_EMOJI_THERE)), false, true, has_sas),
        FlowEvent::SasStartFailed => nothing_exec(has_sas),
        FlowEvent::Sas(p) => match p {
            SasPhase::KeysExchanged => if has_sas {
                show_exec(VerificationState::EmojisShown, true, false, has_sas)
            } else {
                nothing_exec(has_sas)
            },
            SasPhase::Confirmed => show_exec(VerificationState::Confirmed, false, false, has_sas),
            SasPhase::Done => show_exec(VerificationState::Done, false, true, has_sas),
            SasPhase::Cancelled => show_exec(VerificationState::Cancelled, false, true, has_sas),
            _ => nothing_exec(has_sas),
        },
        FlowEvent::Action(a) => if has_sas {
            let mut s = nothing_exec(has_sas);
            s.sas_action = Some(a);
            s
        } else {
            match a {
                VerificationAction::Confirm => nothing_exec(has_sas),
                _ => {
                    let mut s = show_exec(VerificationState::Cancelled, false, true, has_sas);
                    s.cancel_request = true;
                    s
                },
            }
        },
        FlowEvent::ActionDone { action, ok } => if !ok {
            show_exec(VerificationState::Failed(owned(FAILED)), false, true, has_sas)
        } else {
            match action {
                VerificationAction::Cancel => show_exec(VerificationState::Cancelled, false, true, has_sas),
                _ => nothing_exec(has_sas),
            }
        },
        FlowEvent::Ended => {
            let mut s = nothing_exec(has_sas);
            s.finished = true;
            s
        },
    }
}

/// A terminal dialog state.
pub open spec fn is_terminal(s: StateView) -> bool {
    s is Done || s is Cancelled || s is Failed
}

/// The driver only stops after showing an outcome (done, cancelled or
/// failed), except when its streams end; and, apart from the state shown
/// when the exchange starts, it never shows an outcome and keeps going.
pub proof fn law_finish_shows_outcome(has_sas: bool, e: FlowEvent)
    ensures
        flow_spec(has_sas, e).finished && !(e is Ended) ==> (flow_spec(has_sas, e).publish matches Some(st) && is_terminal(st)),
        !(e is SasStarted) ==> (flow_spec(has_sas, e).publish matches Some(st) && is_terminal(st) ==> flow_spec(has_sas, e).finished),
{
}

/// Confirming before an emoji exchange exists changes nothing, and an
/// answer during an exchange is always handed to it.
pub proof fn law_answers_go_to_the_exchange(has_sas: bool, a: VerificationAction)
    ensures
        !has_sas && a == VerificationAction::Confirm ==> flow_spec(has_sas, FlowEvent::Action(a)) == nothing(has_sas),
        has_sas ==> flow_spec(has_sas, FlowEvent::Action(a)).sas_action == Some(a),
        flow_spec(has_sas, FlowEvent::Action(a)).has_sas == has_sas,
{
}

// ----------------------------------------------------------------------
// The dialog
// ----------------------------------------------------------------------

/// Who the dialog names: the session's subject, or `the other device`.
pub open spec fn subject_label(subject: Seq<char>) -> Seq<char> {
    if subject.len() == 0 { "the other device"@ } else { subject }
}

/// What the verification dialog shows for a session: its text, whether the
/// emojis are listed, the confirm button (its label and whether it can be
/// pressed) when the exchange is still open, and whether the dialog closes
/// itself (an open dialog on a done or cancelled session).
pub struct DialogView {
    pub text: String,
    pub emojis_shown: bool,
    pub confirm: Option<(&'static str, bool)>,
    pub auto_close: bool,
}

pub open spec fn dialog_text(state: StateView, subject: Seq<char>) -> Seq<char> {
    match state {
        StateView::Failed(m) => m,
        StateView::Done => "Verified! You can close this dialog."@,
        StateView::Cancelled => "Verification was cancelled."@,
        StateView::Requested | StateView::Ready => "Waiting for "@ + subject_label(subject) + " to accept\u{2026}"@,
        _ => "Confirm these emoji appear in the same order on "@ + subject_label(subject) + "."@,
    }
}

pub fn dialog_view(s: &VerificationSession, open: bool) -> (d: DialogView)
    ensures
        d.text@ == dialog_text(state_view(s.state), s.subject@),
        d.emojis_shown == (state_view(s.state) is EmojisShown || state_view(s.state) is Confirmed),
        match state_view(s.state) {
            StateView::Requested | StateView::Ready => d.confirm matches Some((l, e)) && l@ == "They match"@ && !e,
            StateView::EmojisShown => d.confirm matches Some((l, e)) && l@ == "They match"@ && e,
            StateView::Confirmed => d.confirm matches Some((l, e)) && l@ == "Waiting for them\u{2026}"@ && !e,
            _ => d.confirm is None,
        },
        d.auto_close == (open && (state_view(s.state) is Done || state_view(s.state) is Cancelled)),
{
    let mut label: Vec<char> = Vec::new();
    if s.subject.as_str().is_empty() {
        push_str(&mut label, "the other device");
    } else {
        push_str(&mut label, s.subject.as_str());
    }
    let ghost who = label@;
    let mut v: Vec<char> = Vec::new();
    let (shown, confirm, done) = match &s.state {
        VerificationState::Failed(m) => {
            push_str(&mut v, m.as_str());
            (false, None, false)
        },
        VerificationState::Done => {
            push_str(&mut v, "Verified! You can close this dialog.");
            (false, None, true)
        },
        VerificationState::Cancelled => {
            push_str(&mut v, "Verification was cancelled.");
            (false, None, true)
        },
        VerificationState::Requested | VerificationState::Ready => {
            push_str(&mut v, "Waiting for ");
            crate::text::push_all(&mut v, &label);
            push_str(&mut v, " to accept\u{2026}");
            (false, Some(("They match", false)), false)
        },
        VerificationState::EmojisShown => {
            push_str(&mut v, "Confirm these emoji appear in the same order on ");
            crate::text::push_all(&mut v, &label);
            push_str(&mut v, ".");
            (true, Some(("They match", true)), false)
        },
        VerificationState::Confirmed => {
            push_str(&mut v, "Confirm these emoji appear in the same order on ");
            crate::text::push_all(&mut v, &label);
            push_str(&mut v, ".");
            (true, Some(("Waiting for them\u{2026}", false)), false)
        },
    };
    DialogView { text: string_from_chars(v.as_slice()), emojis_shown: shown, confirm, auto_close: open && done }
}


/// Every phase the running emoji exchange reports from the key exchange on
/// is shown: the emojis once keys are exchanged, `Confirmed` (waiting for
/// the other side) once the user confirmed, and the outcome when it is done
/// or cancelled; only a confirmation keeps the driver going with nothing
/// finished. The phases before the key exchange show nothing new.
pub proof fn law_exchange_phases_are_shown(p: SasPhase)
    ensures
        flow_spec(true, FlowEvent::Sas(SasPhase::KeysExchanged)).publish == Some(StateView::EmojisShown),
        flow_spec(true, FlowEvent::Sas(SasPhase::KeysExchanged)).with_emojis,
        flow_spec(true, FlowEvent::Sas(SasPhase::Confirmed)).publish == Some(StateView::Confirmed),
        !flow_spec(true, FlowEvent::Sas(SasPhase::Confirmed)).finished,
        flow_spec(true, FlowEvent::Sas(SasPhase::Done)).publish == Some(StateView::Done),
        flow_spec(true, FlowEvent::Sas(SasPhase::Done)).finished,
        flow_spec(true, FlowEvent::Sas(SasPhase::Cancelled)).publish == Some(StateView::Cancelled),
        flow_spec(true, FlowEvent::Sas(SasPhase::Cancelled)).finished,
        p == SasPhase::Confirmed || p == SasPhase::Done || p == SasPhase::Cancelled ==> forall|has_sas: bool|
            #[trigger] flow_spec(has_sas, FlowEvent::Sas(p)).publish == Some(sas_state_spec(p, true)),
        p == SasPhase::Created || p == SasPhase::Started || p == SasPhase::Accepted ==> forall|has_sas: bool|
            #[trigger] flow_spec(has_sas, FlowEvent::Sas(p)).publish is None,
{
}


/// Each phase of the emoji exchange shows its own dialog state: waiting
/// (ready) before the keys are exchanged, the emojis once they are (or, on
/// a session that cannot show emojis, the fixed failure), then confirmed,
/// done or cancelled. The dialog's text names the state: a finished
/// verification reads `Verified! You can close this dialog.`, a cancelled
/// one `Verification was cancelled.`, a waiting one `Waiting for {who} to
/// accept…`, and a failure its own message.
pub proof fn law_phases_show_their_state(subject: Seq<char>, m: Seq<char>)
    ensures
        sas_state_spec(SasPhase::Created, true) == StateView::Ready,
        sas_state_spec(SasPhase::Started, true) == StateView::Ready,
        sas_state_spec(SasPhase::Accepted, true) == StateView::Ready,
        sas_state_spec(SasPhase::KeysExchanged, true) == StateView::EmojisShown,
        sas_state_spec(SasPhase::KeysExchanged, false) == StateView::Failed(NO_EMOJI_HERE@),
        sas_state_spec(SasPhase::Confirmed, true) == StateView::Confirmed,
        sas_state_spec(SasPhase::Done, true) == StateView::Done,
        sas_state_spec(SasPhase::Cancelled, true) == StateView::Cancelled,
        dialog_text(StateView::Done, subject) == "Verified! You can close this dialog."@,
        dialog_text(StateView::Cancelled, subject) == "Verification was cancelled."@,
        dialog_text(StateView::Requested, subject) == "Waiting for "@ + subject_label(subject) + " to accept\u{2026}"@,
        dialog_text(StateView::Ready, subject) == "Waiting for "@ + subject_label(subject) + " to accept\u{2026}"@,
        dialog_text(StateView::EmojisShown, subject) == "Confirm these emoji appear in the same order on "@ + subject_label(
            subject,
        ) + "."@,
        dialog_text(StateView::Failed(m), subject) == m,
{
}

} // verus!
