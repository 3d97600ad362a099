use vesper::commands::{gate, pong, whoami, Gate, Request};
use vesper::error::ClientErrorKind;
use vesper::model::Me;

fn refused(g: Gate) -> (ClientErrorKind, String) {
    match g {
        Gate::Refuse(e) => (e.kind, e.message),
        other => panic!("expected a refusal, got {other:?}"),
    }
}

#[test]
fn ping_round_trip() {
    assert_eq!(pong("hello"), "pong:hello");
}

#[test]
fn whoami_is_none_before_login() {
    assert_eq!(whoami(&None, &None), None);
    let me = Me { name: "Ann".to_string(), id: "@ann:x".to_string(), avatar: None };
    let fresh = Me { name: "Anna".to_string(), ..me.clone() };
    assert_eq!(whoami(&None, &Some(me.clone())), Some(me.clone()));
    assert_eq!(whoami(&Some(fresh.clone()), &Some(me)), Some(fresh));
}

#[test]
fn account_requests_need_a_session() {
    let (kind, message) = refused(gate(&Request::JoinRoom, false, None, true));
    assert_eq!((kind, message.as_str()), (ClientErrorKind::Auth, "Not signed in."));
    assert_eq!(gate(&Request::JoinRoom, true, Some("DEV"), true), Gate::Run);
    assert_eq!(gate(&Request::Ping("x".to_string()), false, None, false), Gate::Run);
    assert_eq!(gate(&Request::SetTyping, false, None, true), Gate::Skip);
    assert_eq!(gate(&Request::MarkRead, true, None, false), Gate::Skip);
    assert_eq!(gate(&Request::StartVerification, false, None, true), Gate::FailVerification);
    assert_eq!(gate(&Request::StartVerification, false, None, false), Gate::Skip);
}

#[test]
fn blank_names_and_the_current_session_are_refused() {
    let (kind, message) = refused(gate(&Request::SetDisplayName("  ".to_string()), false, None, true));
    assert_eq!((kind, message.as_str()), (ClientErrorKind::Invalid, "Display name cannot be empty."));
    let (kind, message) = refused(gate(&Request::DeleteDevice("DEV".to_string()), true, Some("DEV"), true));
    assert_eq!((kind, message.as_str()), (ClientErrorKind::Invalid, "Sign out instead of deleting this session."));
    assert_eq!(gate(&Request::DeleteDevice("OTHER".to_string()), true, Some("DEV"), true), Gate::Run);
}
