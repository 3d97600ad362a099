use vesper::secrets::legacy_value;
use vesper::error::ClientErrorKind;
use vesper::session::{
    fallback_name, friendly_error, friendly_http_error, hex_encode, is_auth_failure, map_build_error, me_from,
    new_store_passphrase, passphrase_plan, ApiErrorKind, BuildFailure, PassphrasePlan, SdkFailure, GENERIC,
    SIGN_IN_AGAIN, UNREACHABLE,
};

#[test]
fn auth_failures_purge_but_transport_errors_dont() {
    assert!(is_auth_failure(Some(ApiErrorKind::MissingToken)));
    assert!(is_auth_failure(Some(ApiErrorKind::TokenIncorrect)));
    assert!(is_auth_failure(Some(ApiErrorKind::Forbidden)));
    assert!(!is_auth_failure(Some(ApiErrorKind::LimitExceeded)));
    assert!(!is_auth_failure(Some(ApiErrorKind::Other)));
    assert!(!is_auth_failure(None));
}

#[test]
fn sign_in_failures_read_as_friendly_messages() {
    let e = friendly_http_error(Some(ApiErrorKind::Forbidden));
    assert_eq!(e.kind, ClientErrorKind::Auth);
    assert_eq!(e.message, "Incorrect username or password.");
    let e = friendly_http_error(Some(ApiErrorKind::UnknownToken));
    assert_eq!(e.message, SIGN_IN_AGAIN);
    let e = friendly_http_error(None);
    assert_eq!(e.kind, ClientErrorKind::Network);
    assert_eq!(e.message, UNREACHABLE);
    let e = friendly_http_error(Some(ApiErrorKind::LimitExceeded));
    assert_eq!(e.kind, ClientErrorKind::RateLimited);
    let e = friendly_error(SdkFailure::Other);
    assert_eq!(e.kind, ClientErrorKind::Unknown);
    assert_eq!(e.message, GENERIC);
}

#[test]
fn build_failures_read_as_friendly_messages() {
    assert_eq!(map_build_error(BuildFailure::InvalidServerName).kind, ClientErrorKind::Invalid);
    assert_eq!(map_build_error(BuildFailure::AutoDiscovery).message, UNREACHABLE);
    assert_eq!(map_build_error(BuildFailure::Other).message, "Could not initialize the client.");
}

#[test]
fn stored_passphrase_is_reused_verbatim() {
    assert_eq!(
        passphrase_plan(Some("legacy-secret-value".to_string()), true),
        PassphrasePlan::Reuse("legacy-secret-value".to_string())
    );
    assert_eq!(passphrase_plan(Some(String::new()), false), PassphrasePlan::Generate);
    assert_eq!(passphrase_plan(None, true), PassphrasePlan::Unencrypted);
    assert_eq!(passphrase_plan(None, false), PassphrasePlan::Generate);
}

#[test]
fn new_passphrase_is_96_hex_digits() {
    let p = new_store_passphrase().expect("random source");
    assert_eq!(p.len(), 96);
    assert!(p.chars().all(|c| c.is_ascii_hexdigit() && !c.is_ascii_uppercase()));
    assert_ne!(p, new_store_passphrase().unwrap());
}

#[test]
fn hex_encoding_is_two_digits_per_byte() {
    assert_eq!(hex_encode(&vec![0x00, 0x0f, 0xab, 0xff]), "000fabff");
}

#[test]
fn fallback_name_is_the_localpart() {
    assert_eq!(fallback_name("@alice:example.org"), "alice");
    assert_eq!(fallback_name("@:example.org"), "@:example.org");
    assert_eq!(fallback_name("alice"), "alice");
    assert_eq!(fallback_name("@bob"), "bob");
    let me = me_from("@carol:x".to_string(), None, None);
    assert_eq!(me.name, "carol");
    let me = me_from("@carol:x".to_string(), Some("Carol".to_string()), None);
    assert_eq!(me.name, "Carol");
}

#[test]
fn a_saved_passphrase_is_reused_on_every_later_open() {
    let p = new_store_passphrase().unwrap();
    assert_eq!(p.len(), 96);
    let read_back = legacy_value(p.as_bytes().to_vec()).unwrap();
    assert_eq!(read_back, p);
    assert_eq!(passphrase_plan(Some(read_back.clone()), true), PassphrasePlan::Reuse(p.clone()));
    assert_eq!(passphrase_plan(Some(read_back), false), PassphrasePlan::Reuse(p));
}
