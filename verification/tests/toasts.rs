use vesper::error::{ClientError, ClientErrorKind};
use vesper::toasts::{tone_for, ToastCenter, ToastTone, MAX_STACK};

#[test]
fn errors_are_toned_and_titled_by_kind() {
    assert_eq!(tone_for(ClientErrorKind::Network), (ToastTone::Danger, "Connection problem"));
    assert_eq!(tone_for(ClientErrorKind::RateLimited), (ToastTone::Info, "Slow down"));
    let mut c = ToastCenter::new();
    c.error(&ClientError::auth("Session expired"));
    let t = c.toasts.last().expect("one toast");
    assert_eq!(t.id, 1);
    assert_eq!(t.tone, ToastTone::Danger);
    assert_eq!(t.title, "Sign-in required");
    assert_eq!(t.description.as_deref(), Some("Session expired"));
    assert_eq!(c.next_id, 2);
}

#[test]
fn the_stack_keeps_the_newest_few() {
    let mut c = ToastCenter::new();
    for i in 0..6 {
        c.info(format!("t{i}"), None);
    }
    assert_eq!(c.toasts.len(), MAX_STACK);
    let ids: Vec<u64> = c.toasts.iter().map(|t| t.id).collect();
    assert_eq!(ids, vec![3, 4, 5, 6]);
}

#[test]
fn dismissing_removes_only_that_toast() {
    let mut c = ToastCenter::new();
    c.success("saved".to_string(), Some("ok".to_string()));
    c.info("note".to_string(), None);
    c.dismiss(1);
    assert_eq!(c.toasts.len(), 1);
    assert_eq!(c.toasts[0].title, "note");
    c.dismiss(99);
    assert_eq!(c.toasts.len(), 1);
}

#[test]
fn tones_have_default_titles() {
    let mut c = ToastCenter::new();
    let e = c.from_tone(ToastTone::Success);
    assert_eq!((e.id, e.title.as_str(), e.description), (1, "Done", None));
    assert!(c.toasts.is_empty());
    assert_eq!(c.from_tone(ToastTone::Info).title, "Heads up");
}

#[test]
fn tones_have_accents() {
    assert_eq!(vesper::toasts::tone_accent(ToastTone::Info), "var(--text-brand)");
    assert_eq!(vesper::toasts::tone_accent(ToastTone::Success), "var(--status-online)");
    assert_eq!(vesper::toasts::tone_accent(ToastTone::Danger), "var(--status-danger)");
}
