//! The account console: the session list as the settings screen shows it.

use vstd::prelude::*;

use crate::model::{Device, Duplicate};
use crate::store::{entries_distinct, find_entry, lemma_entry_index, store_view};
use crate::text::{chars_of, dec, owned, push_dec, push_str, string_from_chars};

verus! {

/// How long ago something happened, coarsely: under a minute, minutes,
/// hours, then days.
pub open spec fn relative_age(age_secs: nat) -> Seq<char> {
    if age_secs < 60 {
        "just now"@
    } else if age_secs < 3600 {
        dec(age_secs / 60) + " m ago"@
    } else if age_secs < 86_400 {
        dec(age_secs / 3600) + " h ago"@
    } else {
        dec(age_secs / 86_400) + " d ago"@
    }
}

/// A session's "last seen": `Unknown` without a timestamp, else its age
/// (never negative; a clock before the epoch counts as the timestamp
/// itself), followed by ` · ` and the address when there is one.
pub open spec fn last_seen_spec(ts: Option<u64>, ip: Option<Seq<char>>, now_ms: Option<u64>) -> Seq<char> {
    match ts {
        None => "Unknown"@,
        Some(ms) => {
            let now = match now_ms {
                Some(n) => n,
                None => ms,
            };
            let age = if now >= ms { ((now - ms) / 1000) as nat } else { 0 };
            let rel = relative_age(age);
            match ip {
                Some(a) => if a.len() > 0 { rel + " \u{b7} "@ + a } else { rel },
                None => rel,
            }
        },
    }
}

/// Formats a session's last-seen time (milliseconds since the epoch)
/// against the current time.
pub fn format_last_seen(ts: Option<u64>, ip: Option<&str>, now_ms: Option<u64>) -> (s: String)
    ensures
        s@ == last_seen_spec(ts, crate::media_cache::opt_str_view(ip), now_ms),
{
    let ms = match ts {
        None => {
            return owned("Unknown");
        },
        Some(ms) => ms,
    };
    let now = match now_ms {
        Some(n) => n,
        None => ms,
    };
    let age = now.saturating_sub(ms) / 1000;
    let mut v: Vec<char> = Vec::new();
    if age < 60 {
        push_str(&mut v, "just now");
    } else if age < 3600 {
        push_dec(&mut v, age / 60);
        push_str(&mut v, " m ago");
    } else if age < 86_400 {
        push_dec(&mut v, age / 3600);
        push_str(&mut v, " h ago");
    } else {
        push_dec(&mut v, age / 86_400);
        push_str(&mut v, " d ago");
    }
    assert(v@ =~= relative_age(age as nat));
    if let Some(a) = ip {
        if !a.is_empty() {
            push_str(&mut v, " \u{b7} ");
            push_str(&mut v, a);
        }
    }
    string_from_chars(v.as_slice())
}

/// A session as the server's device list reports it.
#[derive(Debug, Clone, PartialEq, Eq)]
pub struct ListedDevice {
    pub device_id: String,
    pub display_name: Option<String>,
    pub last_seen_ts: Option<u64>,
    pub last_seen_ip: Option<String>,
}

pub open spec fn bool_view() -> spec_fn(bool) -> bool {
    |b: bool| b
}

/// A session row: named "Unnamed session" without a display name, marked
/// current when it is this client's device, and verified when the trust
/// query says so (unknown devices read unverified).
pub open spec fn device_row_spec(
    d: ListedDevice,
    current_id: Option<Seq<char>>,
    verified: Map<Seq<char>, bool>,
    now_ms: Option<u64>,
) -> (Seq<char>, Seq<char>, Seq<char>, bool, bool) {
    (
        d.device_id@,
        match d.display_name {
            Some(n) => n@,
            None => "Unnamed session"@,
        },
        last_seen_spec(
            d.last_seen_ts,
            match d.last_seen_ip {
                Some(a) => Some(a@),
                None => None,
            },
            now_ms,
        ),
        verified.contains_key(d.device_id@) && verified[d.device_id@],
        current_id == Some(d.device_id@),
    )
}

pub open spec fn device_tuple(d: Device) -> (Seq<char>, Seq<char>, Seq<char>, bool, bool) {
    (d.id@, d.name@, d.last_seen@, d.verified, d.current)
}

/// The session list: the server's listing, in its order, merged with the
/// trust query's verified flags.
pub fn device_rows(
    listed: &Vec<ListedDevice>,
    current_id: Option<&str>,
    verified: &Vec<(String, bool)>,
    now_ms: Option<u64>,
) -> (rows: Vec<Device>)
    requires
        entries_distinct(verified@),
    ensures
        rows@.len() == listed@.len(),
        forall|i: int| 0 <= i < rows@.len() ==> #[trigger] device_tuple(rows@[i]) == device_row_spec(
            listed@[i],
            crate::media_cache::opt_str_view(current_id),
            store_view(verified@, bool_view()),
            now_ms,
        ),
{
    let mut rows: Vec<Device> = Vec::new();
    for i in 0..listed.len()
        invariant
            entries_distinct(verified@),
            rows@.len() == i,
            forall|k: int| 0 <= k < i ==> #[trigger] device_tuple(rows@[k]) == device_row_spec(
                listed@[k],
                crate::media_cache::opt_str_view(current_id),
                store_view(verified@, bool_view()),
                now_ms,
            ),
    {
        let d = &listed[i];
        let name = match &d.display_name {
            Some(n) => n.duplicate(),
            None => owned("Unnamed session"),
        };
        let ip = match &d.last_seen_ip {
            Some(a) => Some(a.as_str()),
            None => None,
        };
        let last_seen = format_last_seen(d.last_seen_ts, ip, now_ms);
        let is_verified = match find_entry(verified, d.device_id.as_str()) {
            Some(j) => {
                proof {
                    lemma_entry_index(verified@, j as int);
                }
                verified[j].1
            },
            None => false,
        };
        let current = match current_id {
            Some(c) => crate::text::str_eq(c, d.device_id.as_str()),
            None => false,
        };
        rows.push(Device { id: d.device_id.duplicate(), name, last_seen, verified: is_verified, current });
    }
    rows
}

} // verus!
