use vesper::model::{VerificationAction, VerificationState, VerificationTarget};
use vesper::verification::{
    dialog_view,
    flow_step, map_sas_state, publish, started_session, FlowEvent, RequestPhase, SasPhase, FAILED, NO_EMOJI_HERE,
    NO_EMOJI_THERE,
};

#[test]
fn exchange_phases_map_to_dialog_states() {
    assert_eq!(map_sas_state(SasPhase::Created, true), VerificationState::Ready);
    assert_eq!(map_sas_state(SasPhase::Accepted, false), VerificationState::Ready);
    assert_eq!(map_sas_state(SasPhase::KeysExchanged, true), VerificationState::EmojisShown);
    assert_eq!(
        map_sas_state(SasPhase::KeysExchanged, false),
        VerificationState::Failed(NO_EMOJI_HERE.to_string())
    );
    assert_eq!(map_sas_state(SasPhase::Done, true), VerificationState::Done);
    assert_eq!(map_sas_state(SasPhase::Cancelled, true), VerificationState::Cancelled);
}

#[test]
fn a_ready_request_starts_the_exchange() {
    let s = flow_step(false, FlowEvent::Request(RequestPhase::Ready));
    assert!(s.start_sas);
    assert_eq!(s.publish, None);
    assert!(!s.finished);
    let s = flow_step(false, FlowEvent::Request(RequestPhase::Requested));
    assert!(!s.start_sas && s.publish.is_none() && !s.finished);
}

#[test]
fn emojis_are_shown_once_keys_are_exchanged() {
    let s = flow_step(false, FlowEvent::SasStarted { phase: SasPhase::KeysExchanged, supports_emoji: true });
    assert_eq!(s.publish, Some(VerificationState::EmojisShown));
    assert!(s.with_emojis);
    assert!(s.has_sas);
    let s = flow_step(true, FlowEvent::Sas(SasPhase::KeysExchanged));
    assert_eq!(s.publish, Some(VerificationState::EmojisShown));
    assert!(s.with_emojis);
}

#[test]
fn answers_go_to_the_running_exchange() {
    let s = flow_step(true, FlowEvent::Action(VerificationAction::Confirm));
    assert_eq!(s.sas_action, Some(VerificationAction::Confirm));
    assert!(!s.cancel_request && !s.finished);
    let s = flow_step(true, FlowEvent::ActionDone { action: VerificationAction::Confirm, ok: true });
    assert_eq!(s.publish, None);
    let s = flow_step(true, FlowEvent::Sas(SasPhase::Done));
    assert_eq!(s.publish, Some(VerificationState::Done));
    assert!(s.finished);
}

#[test]
fn cancelling_before_an_exchange_cancels_the_request() {
    let s = flow_step(false, FlowEvent::Action(VerificationAction::Cancel));
    assert!(s.cancel_request);
    assert_eq!(s.publish, Some(VerificationState::Cancelled));
    assert!(s.finished);
    let s = flow_step(false, FlowEvent::Action(VerificationAction::Confirm));
    assert!(!s.cancel_request && s.publish.is_none() && !s.finished);
}

#[test]
fn failures_are_reported_and_finish() {
    let s = flow_step(true, FlowEvent::ActionDone { action: VerificationAction::Mismatch, ok: false });
    assert_eq!(s.publish, Some(VerificationState::Failed(FAILED.to_string())));
    assert!(s.finished);
    let s = flow_step(false, FlowEvent::SasUnsupported);
    assert_eq!(s.publish, Some(VerificationState::Failed(NO_EMOJI_THERE.to_string())));
    assert!(s.finished);
    let s = flow_step(true, FlowEvent::Ended);
    assert!(s.finished && s.publish.is_none());
}

#[test]
fn sessions_start_requested_and_publish_new_states() {
    let s = started_session("Bob".to_string(), VerificationTarget::User("@bob:example.org".to_string()));
    assert_eq!(s.state, VerificationState::Requested);
    assert!(s.emojis.is_empty());
    let s2 = publish(Some(s), VerificationState::Ready, None).expect("session stays");
    assert_eq!(s2.state, VerificationState::Ready);
    assert_eq!(s2.subject, "Bob");
    assert_eq!(publish(None, VerificationState::Done, None), None);
}

#[test]
fn the_dialog_follows_the_session() {
    let mut s = started_session(String::new(), VerificationTarget::User("@bob:example.org".to_string()));
    let d = dialog_view(&s, true);
    assert_eq!(d.text, "Waiting for the other device to accept\u{2026}");
    assert_eq!(d.confirm, Some(("They match", false)));
    assert!(!d.emojis_shown && !d.auto_close);
    s.subject = "Phone".to_string();
    s.state = VerificationState::EmojisShown;
    let d = dialog_view(&s, true);
    assert_eq!(d.text, "Confirm these emoji appear in the same order on Phone.");
    assert_eq!(d.confirm, Some(("They match", true)));
    assert!(d.emojis_shown);
    s.state = VerificationState::Confirmed;
    assert_eq!(dialog_view(&s, true).confirm, Some(("Waiting for them\u{2026}", false)));
    s.state = VerificationState::Done;
    let d = dialog_view(&s, true);
    assert_eq!(d.text, "Verified! You can close this dialog.");
    assert!(d.auto_close && d.confirm.is_none());
    assert!(!dialog_view(&s, false).auto_close);
    s.state = VerificationState::Failed("nope".to_string());
    let d = dialog_view(&s, true);
    assert_eq!(d.text, "nope");
    assert!(!d.auto_close);
}
