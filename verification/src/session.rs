//! Sign-in and session storage: where things live under the data
//! directory, how the local store's passphrase is chosen, and which
//! message each sign-in failure reads as.

use vstd::prelude::*;

use crate::error::{ClientError, ClientErrorKind};
use crate::text::{chars_of, hex_fixed, last_index_of, owned, push_hex_fixed, string_from_chars};

verus! {

/// Directory of the local encrypted store, under the data directory.
pub const STORE_DIR_NAME: &'static str = "matrix-store";
/// The saved session, under the data directory.
pub const SESSION_FILE_NAME: &'static str = "session.json";
/// The store passphrase file (its fallback location), under the data directory.
pub const PASSPHRASE_FILE_NAME: &'static str = "store-passphrase";
/// Device-local preferences, under the data directory.
pub const PREFS_FILE_NAME: &'static str = "prefs.json";
/// The local store's state database, inside the store directory.
pub const STATE_DB_NAME: &'static str = "matrix-sdk-state.sqlite3";
/// Random bytes in a new store passphrase.
pub const PASSPHRASE_BYTES: usize = 48;

pub const UNREACHABLE: &'static str = "Could not reach that homeserver \u{2014} check the server name and your connection.";
pub const SIGN_IN_AGAIN: &'static str = "Your session has expired \u{2014} please sign in again.";
pub const GENERIC: &'static str = "Sign-in failed \u{2014} check your connection and try again.";

// ----------------------------------------------------------------------
// Store passphrase
// ----------------------------------------------------------------------

#[verifier::external_type_specification]
#[verifier::external_body]
pub struct ExRandomError(getrandom::Error);

/// Fills `buf` from the system's random source (`getrandom::fill`). The
/// buffer keeps its length; what it holds is not stated (random on
/// success, unspecified on failure).
#[verifier::external_body]
fn fill_random(buf: &mut Vec<u8>) -> (r: Result<(), getrandom::Error>)
    ensures
        final(buf)@.len() == old(buf)@.len(),
{
    getrandom::fill(buf.as_mut_slice())
}

/// The description of a random-source failure (its `Display` text).
#[verifier::external_body]
fn describe_random_error(e: &getrandom::Error) -> (s: String) {
    format!("{e}")
}

/// Two lowercase hexadecimal digits per byte.
pub open spec fn hex_bytes(b: Seq<u8>) -> Seq<char>
    decreases b.len(),
{
    if b.len() == 0 {
        seq![]
    } else {
        hex_bytes(b.drop_last()) + hex_fixed(b.last() as nat, 2)
    }
}

/// `bytes` as lowercase hexadecimal, two digits each (`{b:02x}`).
pub fn hex_encode(bytes: &Vec<u8>) -> (s: String)
    ensures
        s@ == hex_bytes(bytes@),
{
    let mut v: Vec<char> = Vec::new();
    for i in 0..bytes.len()
        invariant
            v@ == hex_bytes(bytes@.take(i as int)),
    {
        assert(bytes@.take(i + 1).drop_last() =~= bytes@.take(i as int));
        push_hex_fixed(&mut v, bytes[i] as u64, 2);
    }
    assert(bytes@.take(bytes@.len() as int) =~= bytes@);
    string_from_chars(v.as_slice())
}

/// What opening the local store does about its passphrase.
#[derive(Debug, Clone, PartialEq, Eq)]
pub enum PassphrasePlan {
    /// A passphrase was stored: reuse it as is.
    Reuse(String),
    /// A store created without a passphrase exists: keep it unencrypted
    /// (signing out and in again upgrades it).
    Unencrypted,
    /// Fresh install: generate, store and use a new one.
    Generate,
}

/// Chooses what to do given the stored passphrase, if any, and whether a
/// store already exists. An empty stored passphrase counts as none.
pub fn passphrase_plan(stored: Option<String>, store_exists: bool) -> (p: PassphrasePlan)
    ensures
        stored matches Some(s) ==> (s@.len() > 0 ==> p == PassphrasePlan::Reuse(s)),
        !(stored matches Some(s) && s@.len() > 0) ==> p == if store_exists {
            PassphrasePlan::Unencrypted
        } else {
            PassphrasePlan::Generate
        },
{
    if let Some(s) = stored {
        if !s.as_str().is_empty() {
            return PassphrasePlan::Reuse(s);
        }
    }
    if store_exists {
        PassphrasePlan::Unencrypted
    } else {
        PassphrasePlan::Generate
    }
}

proof fn lemma_hex_bytes_plain(b: Seq<u8>)
    ensures
        hex_bytes(b).len() == 2 * b.len(),
        forall|i: int| 0 <= i < hex_bytes(b).len() ==> !crate::text::is_white(#[trigger] hex_bytes(b)[i]),
    decreases b.len(),
{
    if b.len() > 0 {
        lemma_hex_bytes_plain(b.drop_last());
        crate::text::lemma_hex_fixed_plain(b.last() as nat, 2);
        let h = hex_bytes(b.drop_last());
        let t = crate::text::hex_fixed(b.last() as nat, 2);
        assert forall|i: int| 0 <= i < hex_bytes(b).len() implies !crate::text::is_white(#[trigger] hex_bytes(b)[i]) by {
            if i < h.len() {
                assert(hex_bytes(b)[i] == h[i]);
            } else {
                assert(hex_bytes(b)[i] == t[i - h.len()]);
            }
        }
    }
}

/// A generated passphrase, once saved, is what every later opening of the
/// store gets back: its file (the passphrase's UTF-8 bytes) reads back,
/// trimmed, as the passphrase itself, and a stored passphrase that is not
/// empty is reused (see [`passphrase_plan`]) whether or not a store exists.
pub proof fn law_generated_passphrase_reads_back(b: Seq<u8>)
    requires
        b.len() == PASSPHRASE_BYTES,
    ensures
        vstd::utf8::valid_utf8(vstd::utf8::encode_utf8(hex_bytes(b))),
        crate::text::trim(vstd::utf8::decode_utf8(vstd::utf8::encode_utf8(hex_bytes(b)))) == hex_bytes(b),
        hex_bytes(b).len() == 2 * PASSPHRASE_BYTES,
{
    vstd::utf8::encode_utf8_valid_utf8(hex_bytes(b));
    vstd::utf8::encode_utf8_decode_utf8(hex_bytes(b));
    lemma_hex_bytes_plain(b);
    crate::text::lemma_trim_plain(hex_bytes(b));
}

/// A fresh store passphrase: 48 random bytes as 96 lowercase hexadecimal
/// digits. A failing random source is reported as a storage error.
pub fn new_store_passphrase() -> (r: Result<String, ClientError>)
    ensures
        r matches Ok(p) ==> exists|b: Seq<u8>| b.len() == PASSPHRASE_BYTES && p@ == #[trigger] hex_bytes(b),
        r matches Err(e) ==> e.kind == ClientErrorKind::Storage,
{
    let mut buf: Vec<u8> = Vec::new();
    for i in 0..PASSPHRASE_BYTES
        invariant
            buf@.len() == i,
    {
        buf.push(0u8);
    }
    match fill_random(&mut buf) {
        Ok(()) => {
            let p = hex_encode(&buf);
            assert(buf@.len() == PASSPHRASE_BYTES && p@ == hex_bytes(buf@));
            Ok(p)
        },
        Err(e) => {
            let mut v = chars_of("Could not generate a store passphrase: ");
            crate::text::push_str(&mut v, describe_random_error(&e).as_str());
            Err(ClientError { kind: ClientErrorKind::Storage, message: string_from_chars(v.as_slice()) })
        },
    }
}

// ----------------------------------------------------------------------
// Sign-in failures
// ----------------------------------------------------------------------

/// The standard error kinds a homeserver answers with, as far as sign-in
/// tells them apart.
#[derive(Debug, Clone, Copy, PartialEq, Eq, Structural)]
pub enum ApiErrorKind {
    Forbidden,
    InvalidParam,
    InvalidUsername,
    UserDeactivated,
    UserLocked,
    UserSuspended,
    LimitExceeded,
    MissingToken,
    UnknownToken,
    TokenIncorrect,
    /// Any other standard error.
    Other,
}

/// Whether a failure means the stored credentials are dead (so the stored
/// session is purged), as opposed to a transport problem.
pub fn is_auth_failure(kind: Option<ApiErrorKind>) -> (r: bool)
    ensures
        r == match kind {
            Some(ApiErrorKind::MissingToken) | Some(ApiErrorKind::UnknownToken)
            | Some(ApiErrorKind::TokenIncorrect) | Some(ApiErrorKind::Forbidden) => true,
            _ => false,
        },
{
    match kind {
        Some(ApiErrorKind::MissingToken) => true,
        Some(ApiErrorKind::UnknownToken) => true,
        Some(ApiErrorKind::TokenIncorrect) => true,
        Some(ApiErrorKind::Forbidden) => true,
        _ => false,
    }
}

/// The kind and message of a failed request, by the server's error kind
/// (`None`: no answer from the server at all).
pub open spec fn friendly_http_spec(kind: Option<ApiErrorKind>) -> (ClientErrorKind, Seq<char>) {
    match kind {
        Some(ApiErrorKind::Forbidden) => (ClientErrorKind::Auth, "Incorrect username or password."@),
        Some(ApiErrorKind::InvalidParam) | Some(ApiErrorKind::InvalidUsername) => (
            ClientErrorKind::Invalid,
            "The server didn't recognize that username."@,
        ),
        Some(ApiErrorKind::UserDeactivated) => (ClientErrorKind::Auth, "This account has been deactivated."@),
        Some(ApiErrorKind::UserLocked) | Some(ApiErrorKind::UserSuspended) => (
            ClientErrorKind::Auth,
            "This account is suspended."@,
        ),
        Some(ApiErrorKind::LimitExceeded) => (
            ClientErrorKind::RateLimited,
            "Too many attempts \u{2014} wait a moment and try again."@,
        ),
        Some(ApiErrorKind::MissingToken) | Some(ApiErrorKind::UnknownToken) | Some(
            ApiErrorKind::TokenIncorrect,
        ) => (ClientErrorKind::Auth, SIGN_IN_AGAIN@),
        Some(ApiErrorKind::Other) => (ClientErrorKind::Server, GENERIC@),
        None => (ClientErrorKind::Network, UNREACHABLE@),
    }
}

pub fn friendly_http_error(kind: Option<ApiErrorKind>) -> (e: ClientError)
    ensures
        (e.kind, e.message@) == friendly_http_spec(kind),
{
    match kind {
        Some(ApiErrorKind::Forbidden) => ClientError::auth("Incorrect username or password."),
        Some(ApiErrorKind::InvalidParam) | Some(ApiErrorKind::InvalidUsername) => ClientError::invalid(
            "The server didn't recognize that username.",
        ),
        Some(ApiErrorKind::UserDeactivated) => ClientError::auth("This account has been deactivated."),
        Some(ApiErrorKind::UserLocked) | Some(ApiErrorKind::UserSuspended) => ClientError::auth(
            "This account is suspended.",
        ),
        Some(ApiErrorKind::LimitExceeded) => ClientError::rate_limited(
            "Too many attempts \u{2014} wait a moment and try again.",
        ),
        Some(ApiErrorKind::MissingToken) | Some(ApiErrorKind::UnknownToken) | Some(
            ApiErrorKind::TokenIncorrect,
        ) => ClientError::auth(SIGN_IN_AGAIN),
        Some(ApiErrorKind::Other) => ClientError::server(GENERIC),
        None => ClientError::network(UNREACHABLE),
    }
}

/// How a client call failed: at the HTTP layer (with the server's error
/// kind, when it answered), or elsewhere.
#[derive(Debug, Clone, Copy, PartialEq, Eq, Structural)]
pub enum SdkFailure {
    Http(Option<ApiErrorKind>),
    Other,
}

/// The error a failed sign-in or restore reads as.
pub fn friendly_error(f: SdkFailure) -> (e: ClientError)
    ensures
        f matches SdkFailure::Http(k) ==> (e.kind, e.message@) == friendly_http_spec(k),
        f is Other ==> e.kind == ClientErrorKind::Unknown && e.message@ == GENERIC@,
{
    match f {
        SdkFailure::Http(k) => friendly_http_error(k),
        SdkFailure::Other => ClientError::unknown(GENERIC),
    }
}

/// Why building the client failed.
#[derive(Debug, Clone, Copy, PartialEq, Eq, Structural)]
pub enum BuildFailure {
    InvalidServerName,
    AutoDiscovery,
    Http,
    Other,
}

/// The error a failed client build reads as.
pub fn map_build_error(f: BuildFailure) -> (e: ClientError)
    ensures
        f is InvalidServerName ==> e.kind == ClientErrorKind::Invalid
            && e.message@ == "The homeserver name looks invalid \u{2014} try e.g. `matrix.org`."@,
        (f is AutoDiscovery || f is Http) ==> e.kind == ClientErrorKind::Network && e.message@ == UNREACHABLE@,
        f is Other ==> e.kind == ClientErrorKind::Unknown && e.message@ == "Could not initialize the client."@,
{
    match f {
        BuildFailure::InvalidServerName => ClientError::invalid(
            "The homeserver name looks invalid \u{2014} try e.g. `matrix.org`.",
        ),
        BuildFailure::AutoDiscovery | BuildFailure::Http => ClientError::network(UNREACHABLE),
        BuildFailure::Other => ClientError::unknown("Could not initialize the client."),
    }
}

// ----------------------------------------------------------------------
// The signed-in account
// ----------------------------------------------------------------------

/// The first index of `c` in `s`, if any.
pub open spec fn first_index_of(s: Seq<char>, c: char) -> Option<nat> {
    if exists|i: int| 0 <= i < s.len() && s[i] == c {
        Some((choose|i: int| 0 <= i < s.len() && s[i] == c && forall|k: int| 0 <= k < i ==> s[k] != c) as nat)
    } else {
        None
    }
}

/// The name shown for an account without a display name: the localpart of
/// its user id (between `@` and the first `:`), or the whole id when it has
/// no `@` or the localpart is empty.
pub open spec fn fallback_name_spec(id: Seq<char>) -> Seq<char> {
    if id.len() > 0 && id[0] == '@' {
        let rest = id.drop_first();
        let local = match first_index_of(rest, ':') {
            Some(i) => rest.take(i as int),
            None => rest,
        };
        if local.len() > 0 { local } else { id }
    } else {
        id
    }
}

pub fn fallback_name(id: &str) -> (r: String)
    ensures
        r@ == fallback_name_spec(id@),
{
    let v = chars_of(id);
    if v.len() == 0 || v[0] != '@' {
        return owned(id);
    }
    let mut end: usize = 1;
    while end < v.len() && v[end] != ':'
        invariant
            1 <= end <= v@.len(),
            forall|k: int| 1 <= k < end ==> v@[k] != ':',
        decreases v@.len() - end,
    {
        end = end + 1;
    }
    let ghost rest = id@.drop_first();
    proof {
        if end < v.len() {
            assert(rest[end - 1] == ':');
            assert(exists|i: int| 0 <= i < rest.len() && rest[i] == ':');
            let j = choose|i: int| 0 <= i < rest.len() && rest[i] == ':' && forall|k: int| 0 <= k < i ==> rest[k] != ':';
            assert forall|k: int| 0 <= k < end - 1 implies rest[k] != ':' by {
                assert(rest[k] == v@[k + 1]);
            }
            if j < end - 1 {
                assert(rest[j] == v@[j + 1]);
            }
            if j > end - 1 {
                assert(rest[end - 1] != ':');
            }
        } else {
            assert forall|i: int| 0 <= i < rest.len() implies rest[i] != ':' by {
                assert(rest[i] == v@[i + 1]);
            }
        }
    }
    let local = crate::text::slice_vec(&v, 1, end);
    assert(local@ =~= if end < v.len() { rest.take(end - 1) } else { rest });
    if local.len() == 0 {
        owned(id)
    } else {
        string_from_chars(local.as_slice())
    }
}

/// The signed-in account as the UI shows it: its display name when it has
/// one, else the fallback name.
pub fn me_from(id: String, display_name: Option<String>, avatar: Option<String>) -> (me: crate::model::Me)
    ensures
        me.id == id,
        me.name@ == match display_name {
            Some(n) => n@,
            None => fallback_name_spec(id@),
        },
        me.avatar == avatar,
{
    let name = match display_name {
        Some(n) => n,
        None => fallback_name(id.as_str()),
    };
    crate::model::Me { name, id, avatar }
}

} // verus!
