//! Where credentials live: the OS keyring where the platform has one (and
//! the user has not opted out), else owner-only files under the data
//! directory. This module holds the rules; reading and writing are done by
//! the caller.

use vstd::prelude::*;

use crate::error::{ClientError, ClientErrorKind};
use crate::text::{chars_of, owned, push_str, string_from_chars, trim, trim_vec};

verus! {

/// The keyring service name credentials are filed under.
pub const SERVICE: &'static str = "dev.vesper.app";

/// A stored credential.
#[derive(Debug, Clone, Copy, PartialEq, Eq, Structural)]
pub enum Secret {
    Session,
    StorePassphrase,
}

impl Secret {
    /// The keyring account a credential is filed under.
    pub fn account(self) -> (a: &'static str)
        ensures
            a@ == match self {
                Secret::Session => "session"@,
                Secret::StorePassphrase => "store-passphrase"@,
            },
    {
        match self {
            Secret::Session => "session",
            Secret::StorePassphrase => "store-passphrase",
        }
    }
}

/// The keyring is used unless the secret-store setting says `file`.
pub fn keyring_enabled(setting: Option<&str>) -> (r: bool)
    ensures
        r == !(setting matches Some(s) && s@ == "file"@),
{
    match setting {
        Some(s) => !crate::text::str_eq(s, "file"),
        None => true,
    }
}

/// Which backend holds credentials, for diagnostics.
pub fn backend_in_use(platform_has_keyring: bool, keyring_enabled: bool) -> (r: &'static str)
    ensures
        r@ == if !platform_has_keyring {
            "file (no OS keyring backend on this platform)"@
        } else if keyring_enabled {
            "os-keyring (file fallback if unavailable)"@
        } else {
            "file (VESPER_SECRET_STORE=file)"@
        },
{
    if !platform_has_keyring {
        "file (no OS keyring backend on this platform)"
    } else if keyring_enabled {
        "os-keyring (file fallback if unavailable)"
    } else {
        "file (VESPER_SECRET_STORE=file)"
    }
}

/// Decodes `bytes` as UTF-8 (`String::from_utf8`): the decoded text when
/// they are valid UTF-8, else the decoder's description of the fault.
#[verifier::external_body]
fn utf8_string(bytes: Vec<u8>) -> (r: Result<String, String>)
    ensures
        r is Ok <==> vstd::utf8::valid_utf8(bytes@),
        r matches Ok(s) ==> s@ == vstd::utf8::decode_utf8(bytes@),
{
    String::from_utf8(bytes).map_err(|e| format!("{e}"))
}

/// A credential read back from its file: the file's text, trimmed.
/// Bytes that are not UTF-8 are a storage error.
pub fn legacy_value(bytes: Vec<u8>) -> (r: Result<String, ClientError>)
    ensures
        vstd::utf8::valid_utf8(bytes@) ==> (r matches Ok(s) && s@ == trim(vstd::utf8::decode_utf8(bytes@))),
        !vstd::utf8::valid_utf8(bytes@) ==> (r matches Err(e) && e.kind == ClientErrorKind::Storage),
{
    match utf8_string(bytes) {
        Ok(s) => {
            let t = trim_vec(&chars_of(s.as_str()));
            Ok(string_from_chars(t.as_slice()))
        },
        Err(why) => {
            let mut v = chars_of("Stored credentials are not readable: ");
            push_str(&mut v, why.as_str());
            Err(ClientError { kind: ClientErrorKind::Storage, message: string_from_chars(v.as_slice()) })
        },
    }
}

/// `parts` joined with `sep` between them.
pub open spec fn join_spec(parts: Seq<Seq<char>>, sep: Seq<char>) -> Seq<char>
    decreases parts.len(),
{
    if parts.len() == 0 {
        seq![]
    } else if parts.len() == 1 {
        parts[0]
    } else {
        join_spec(parts.drop_last(), sep) + sep + parts.last()
    }
}

/// The outcome of deleting a credential from every place it may be: done
/// when nothing failed, else one storage error listing every failure.
pub fn delete_outcome(failures: &Vec<String>) -> (r: Result<(), ClientError>)
    ensures
        failures@.len() == 0 ==> r is Ok,
        failures@.len() > 0 ==> (r matches Err(e) && e.kind == ClientErrorKind::Storage
            && e.message@ == "Could not fully remove local credentials: "@ + join_spec(
            crate::model::strings_view(failures@),
            "; "@,
        )),
{
    if failures.len() == 0 {
        return Ok(());
    }
    let ghost parts = crate::model::strings_view(failures@);
    let mut v = chars_of("Could not fully remove local credentials: ");
    let ghost head = v@;
    push_str(&mut v, failures[0].as_str());
    assert(parts.take(1).drop_last() =~= Seq::<Seq<char>>::empty());
    for i in 1..failures.len()
        invariant
            failures@.len() > 0,
            parts == crate::model::strings_view(failures@),
            v@ == head + join_spec(parts.take(i as int), "; "@),
    {
        push_str(&mut v, "; ");
        push_str(&mut v, failures[i].as_str());
        assert(parts.take(i + 1).drop_last() =~= parts.take(i as int));
        assert(v@ =~= head + join_spec(parts.take(i + 1), "; "@));
    }
    assert(parts.take(failures@.len() as int) =~= parts);
    Err(ClientError { kind: ClientErrorKind::Storage, message: string_from_chars(v.as_slice()) })
}

} // verus!
