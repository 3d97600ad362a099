use vesper::account::{device_rows, format_last_seen, ListedDevice};
use vesper::secrets::{backend_in_use, delete_outcome, keyring_enabled, legacy_value, Secret};
use vesper::uiaa::{
    after_first_attempt, after_password_attempt, password_stage_available, DeleteAttempt, DeleteStep, BAD_PASSWORD,
    NO_PASSWORD_FLOW,
};

#[test]
fn last_seen_is_relative_with_address() {
    let now = 10_000_000_000u64;
    assert_eq!(format_last_seen(None, None, Some(now)), "Unknown");
    assert_eq!(format_last_seen(Some(now - 5_000), None, Some(now)), "just now");
    assert_eq!(format_last_seen(Some(now - 120_000), Some("1.2.3.4"), Some(now)), "2 m ago · 1.2.3.4");
    assert_eq!(format_last_seen(Some(now - 7_200_000), Some(""), Some(now)), "2 h ago");
    assert_eq!(format_last_seen(Some(now - 3 * 86_400_000), None, Some(now)), "3 d ago");
    assert_eq!(format_last_seen(Some(now + 5_000), None, Some(now)), "just now");
    assert_eq!(format_last_seen(Some(now), None, None), "just now");
}

#[test]
fn device_rows_merge_trust_and_mark_current() {
    let listed = vec![
        ListedDevice { device_id: "A".into(), display_name: None, last_seen_ts: None, last_seen_ip: None },
        ListedDevice { device_id: "B".into(), display_name: Some("Phone".into()), last_seen_ts: None, last_seen_ip: None },
    ];
    let rows = device_rows(&listed, Some("B"), &vec![("A".to_string(), true)], None);
    assert_eq!(rows[0].name, "Unnamed session");
    assert!(rows[0].verified && !rows[0].current);
    assert!(!rows[1].verified && rows[1].current);
    assert_eq!(rows[1].last_seen, "Unknown");
}

#[test]
fn secrets_backend_and_accounts() {
    assert_eq!(Secret::Session.account(), "session");
    assert_eq!(Secret::StorePassphrase.account(), "store-passphrase");
    assert!(!keyring_enabled(Some("file")));
    assert!(keyring_enabled(Some("keyring")));
    assert!(keyring_enabled(None));
    assert_eq!(backend_in_use(false, true), "file (no OS keyring backend on this platform)");
    assert_eq!(backend_in_use(true, false), "file (VESPER_SECRET_STORE=file)");
}

#[test]
fn legacy_credentials_are_trimmed_text() {
    assert_eq!(legacy_value(b"legacy-secret-value\n".to_vec()).unwrap(), "legacy-secret-value");
    assert!(legacy_value(vec![0xff, 0xfe]).is_err());
}

#[test]
fn delete_reports_every_failure() {
    assert!(delete_outcome(&vec![]).is_ok());
    let e = delete_outcome(&vec!["a".to_string(), "b".to_string()]).unwrap_err();
    assert_eq!(e.message, "Could not fully remove local credentials: a; b");
}

#[test]
fn password_stage_flow() {
    let flows = vec![vec!["m.login.sso".to_string()], vec!["m.login.password".to_string()]];
    assert!(password_stage_available(&flows));
    assert!(!password_stage_available(&vec![vec!["m.login.sso".to_string()]]));
    let step = after_first_attempt(DeleteAttempt::Challenge { flows, session: Some("s".into()) });
    assert_eq!(step, DeleteStep::RetryWithPassword { session: Some("s".into()) });
    let step = after_first_attempt(DeleteAttempt::Challenge { flows: vec![], session: None });
    match step {
        DeleteStep::Fail(e) => assert_eq!(e.message, NO_PASSWORD_FLOW),
        other => panic!("unexpected {other:?}"),
    }
    assert_eq!(after_first_attempt(DeleteAttempt::Deleted), DeleteStep::Done);
    let e = after_password_attempt(DeleteAttempt::Challenge { flows: vec![], session: None }).unwrap_err();
    assert_eq!(e.message, BAD_PASSWORD);
}
