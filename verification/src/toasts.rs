//! The toast stack: transient notices, newest last, at most a few shown;
//! errors are titled and toned by their kind.

use vstd::prelude::*;

use crate::error::{ClientError, ClientErrorKind};
use crate::model::Duplicate;
use crate::text::owned;

verus! {

/// Milliseconds before a toast dismisses itself.
pub const AUTO_DISMISS_MS: u64 = 6000;
/// Toasts shown at once; older ones give way.
pub const MAX_STACK: usize = 4;

#[derive(Debug, Clone, Copy, PartialEq, Eq, Structural)]
pub enum ToastTone {
    Info,
    Success,
    Danger,
}

#[derive(Debug, Clone, PartialEq, Eq)]
pub struct ToastEntry {
    pub id: u64,
    pub tone: ToastTone,
    pub title: String,
    pub description: Option<String>,
}

/// The tone and title an error's toast gets.
pub open spec fn tone_spec(kind: ClientErrorKind) -> (ToastTone, Seq<char>) {
    match kind {
        ClientErrorKind::Network => (ToastTone::Danger, "Connection problem"@),
        ClientErrorKind::Auth => (ToastTone::Danger, "Sign-in required"@),
        ClientErrorKind::RateLimited => (ToastTone::Info, "Slow down"@),
        ClientErrorKind::Invalid => (ToastTone::Info, "That didn't work"@),
        ClientErrorKind::Server => (ToastTone::Danger, "Server error"@),
        ClientErrorKind::Storage => (ToastTone::Danger, "Storage problem"@),
        ClientErrorKind::Unsupported => (ToastTone::Info, "Not available here"@),
        ClientErrorKind::Unknown => (ToastTone::Danger, "Something went wrong"@),
    }
}

pub fn tone_for(kind: ClientErrorKind) -> (r: (ToastTone, &'static str))
    ensures
        (r.0, r.1@) == tone_spec(kind),
{
    match kind {
        ClientErrorKind::Network => (ToastTone::Danger, "Connection problem"),
        ClientErrorKind::Auth => (ToastTone::Danger, "Sign-in required"),
        ClientErrorKind::RateLimited => (ToastTone::Info, "Slow down"),
        ClientErrorKind::Invalid => (ToastTone::Info, "That didn't work"),
        ClientErrorKind::Server => (ToastTone::Danger, "Server error"),
        ClientErrorKind::Storage => (ToastTone::Danger, "Storage problem"),
        ClientErrorKind::Unsupported => (ToastTone::Info, "Not available here"),
        ClientErrorKind::Unknown => (ToastTone::Danger, "Something went wrong"),
    }
}

/// A toast's accent colour by tone.
pub open spec fn accent_spec(tone: ToastTone) -> Seq<char> {
    match tone {
        ToastTone::Info => "var(--text-brand)"@,
        ToastTone::Success => "var(--status-online)"@,
        ToastTone::Danger => "var(--status-danger)"@,
    }
}

pub fn tone_accent(tone: ToastTone) -> (c: &'static str)
    ensures
        c@ == accent_spec(tone),
{
    match tone {
        ToastTone::Info => "var(--text-brand)",
        ToastTone::Success => "var(--status-online)",
        ToastTone::Danger => "var(--status-danger)",
    }
}

/// The default title of a toast of a tone.
pub open spec fn default_title(tone: ToastTone) -> Seq<char> {
    match tone {
        ToastTone::Info => "Heads up"@,
        ToastTone::Success => "Done"@,
        ToastTone::Danger => "Something went wrong"@,
    }
}

/// The shown toasts and the next id to give out.
pub struct ToastCenter {
    pub toasts: Vec<ToastEntry>,
    pub next_id: u64,
}

/// The newest `MAX_STACK` entries of a list.
pub open spec fn keep_newest(s: Seq<ToastEntry>) -> Seq<ToastEntry> {
    if s.len() > MAX_STACK { s.subrange(s.len() - MAX_STACK, s.len() as int) } else { s }
}

impl ToastCenter {
    pub fn new() -> (c: ToastCenter)
        ensures
            c.toasts@.len() == 0,
            c.next_id == 1,
    {
        ToastCenter { toasts: Vec::new(), next_id: 1 }
    }

    /// Adds a toast; the oldest give way beyond the stack limit.
    pub fn push(&mut self, entry: ToastEntry)
        ensures
            final(self).toasts@ == keep_newest(old(self).toasts@.push(entry)),
            final(self).next_id == old(self).next_id,
    {
        let mut v: Vec<ToastEntry> = Vec::new();
        std::mem::swap(&mut v, &mut self.toasts);
        v.push(entry);
        if v.len() > MAX_STACK {
            let overflow = v.len() - MAX_STACK;
            let ghost all = v@;
            let mut k: usize = 0;
            while k < overflow
                invariant
                    overflow == all.len() - MAX_STACK,
                    k <= overflow,
                    v@ == all.subrange(k as int, all.len() as int),
                decreases overflow - k,
            {
                v.remove(0);
                assert(v@ =~= all.subrange(k + 1, all.len() as int));
                k = k + 1;
            }
        }
        self.toasts = v;
    }

    fn mint(&mut self) -> (id: u64)
        requires
            old(self).next_id < u64::MAX,
        ensures
            id == old(self).next_id,
            final(self).next_id == old(self).next_id + 1,
            final(self).toasts == old(self).toasts,
    {
        let id = self.next_id;
        self.next_id = id + 1;
        id
    }

    /// Shows an error, toned and titled by its kind, its message as the text.
    pub fn error(&mut self, err: &ClientError)
        requires
            old(self).next_id < u64::MAX,
        ensures
            final(self).next_id == old(self).next_id + 1,
            final(self).toasts@.len() == keep_newest(old(self).toasts@.push(final(self).toasts@.last())).len(),
            final(self).toasts@ == keep_newest(old(self).toasts@.push(final(self).toasts@.last())),
            final(self).toasts@.last().id == old(self).next_id,
            (final(self).toasts@.last().tone, final(self).toasts@.last().title@) == tone_spec(err.kind),
            crate::model::opt_view(final(self).toasts@.last().description) == Some(err.message@),
    {
        let (tone, title) = tone_for(err.kind);
        let id = self.mint();
        let entry = ToastEntry { id, tone, title: owned(title), description: Some(err.message.duplicate()) };
        self.push(entry);
    }

    /// Shows an informational toast.
    pub fn info(&mut self, title: String, description: Option<String>)
        requires
            old(self).next_id < u64::MAX,
        ensures
            final(self).next_id == old(self).next_id + 1,
            final(self).toasts@ == keep_newest(old(self).toasts@.push(
                ToastEntry { id: old(self).next_id, tone: ToastTone::Info, title, description },
            )),
    {
        let id = self.mint();
        self.push(ToastEntry { id, tone: ToastTone::Info, title, description });
    }

    /// Shows a success toast.
    pub fn success(&mut self, title: String, description: Option<String>)
        requires
            old(self).next_id < u64::MAX,
        ensures
            final(self).next_id == old(self).next_id + 1,
            final(self).toasts@ == keep_newest(old(self).toasts@.push(
                ToastEntry { id: old(self).next_id, tone: ToastTone::Success, title, description },
            )),
    {
        let id = self.mint();
        self.push(ToastEntry { id, tone: ToastTone::Success, title, description });
    }

    /// A toast of a tone with its default title and no text.
    pub fn from_tone(&mut self, tone: ToastTone) -> (e: ToastEntry)
        requires
            old(self).next_id < u64::MAX,
        ensures
            e.id == old(self).next_id,
            e.tone == tone,
            e.title@ == default_title(tone),
            e.description is None,
            final(self).next_id == old(self).next_id + 1,
            final(self).toasts == old(self).toasts,
    {
        let id = self.mint();
        let title = match tone {
            ToastTone::Info => "Heads up",
            ToastTone::Success => "Done",
            ToastTone::Danger => "Something went wrong",
        };
        ToastEntry { id, tone, title: owned(title), description: None }
    }

    /// Dismisses the toast with that id.
    pub fn dismiss(&mut self, id: u64)
        ensures
            final(self).toasts@ == old(self).toasts@.filter(|t: ToastEntry| t.id != id),
            final(self).next_id == old(self).next_id,
    {
        let ghost pred = |t: ToastEntry| t.id != id;
        let ghost orig = self.toasts@;
        let mut kept: Vec<ToastEntry> = Vec::new();
        let ghost mut taken: int = 0;
        while self.toasts.len() > 0
            invariant
                pred == (|t: ToastEntry| t.id != id),
                self.next_id == old(self).next_id,
                0 <= taken <= orig.len(),
                self.toasts@ == orig.subrange(taken, orig.len() as int),
                kept@ == orig.take(taken).filter(pred),
            decreases self.toasts@.len(),
        {
            let t = self.toasts.remove(0);
            proof {
                assert(orig.take(taken + 1).drop_last() =~= orig.take(taken));
                assert(orig.take(taken + 1).last() == t);
                reveal(Seq::filter);
            }
            if t.id != id {
                kept.push(t);
            }
            proof {
                taken = taken + 1;
                assert(self.toasts@ =~= orig.subrange(taken, orig.len() as int));
            }
        }
        assert(orig.take(orig.len() as int) =~= orig);
        self.toasts = kept;
    }
}

/// The stack never shows more than its limit, and what it shows is the
/// newest toasts in the order they came.
pub proof fn law_stack_is_bounded(s: Seq<ToastEntry>, e: ToastEntry)
    requires
        s.len() <= MAX_STACK,
    ensures
        keep_newest(s.push(e)).len() <= MAX_STACK,
        keep_newest(s.push(e)).last() == e,
        keep_newest(s.push(e)) == s.push(e).subrange(s.len() + 1 - keep_newest(s.push(e)).len(), (s.len() + 1) as int),
{
    if s.len() + 1 <= MAX_STACK {
        assert(s.push(e).subrange(0, (s.len() + 1) as int) =~= s.push(e));
    }
}


/// An error's toast is titled by its kind, each kind its own title:
/// connection problems, sign-in, rate limits, invalid requests, server and
/// storage faults, unsupported features and the rest; rate limits, invalid
/// requests and unsupported features are informative, the others alarms.
pub proof fn law_error_toasts_name_their_kind(a: ClientErrorKind, b: ClientErrorKind)
    ensures
        tone_spec(ClientErrorKind::Network) == (ToastTone::Danger, "Connection problem"@),
        tone_spec(ClientErrorKind::Auth) == (ToastTone::Danger, "Sign-in required"@),
        tone_spec(ClientErrorKind::RateLimited) == (ToastTone::Info, "Slow down"@),
        tone_spec(ClientErrorKind::Invalid) == (ToastTone::Info, "That didn't work"@),
        tone_spec(ClientErrorKind::Server) == (ToastTone::Danger, "Server error"@),
        tone_spec(ClientErrorKind::Storage) == (ToastTone::Danger, "Storage problem"@),
        tone_spec(ClientErrorKind::Unsupported) == (ToastTone::Info, "Not available here"@),
        tone_spec(ClientErrorKind::Unknown) == (ToastTone::Danger, "Something went wrong"@),
        a != b ==> tone_spec(a).1 != tone_spec(b).1,
        default_title(ToastTone::Info) == "Heads up"@,
        default_title(ToastTone::Success) == "Done"@,
        default_title(ToastTone::Danger) == "Something went wrong"@,
{
    reveal_strlit("Connection problem");
    reveal_strlit("Sign-in required");
    reveal_strlit("Slow down");
    reveal_strlit("That didn't work");
    reveal_strlit("Server error");
    reveal_strlit("Storage problem");
    reveal_strlit("Not available here");
    reveal_strlit("Something went wrong");
    let ta = tone_spec(a).1;
    let tb = tone_spec(b).1;
    if a != b && ta == tb {
        assert(ta.len() == tb.len());
        assert(ta[0] == tb[0]);
        assert(ta[1] == tb[1]);
        assert(false);
    }
}


/// Each tone has its own accent: the brand colour for information, the
/// online colour for success, the danger colour for failures.
pub proof fn law_tones_have_their_accents(a: ToastTone, b: ToastTone)
    ensures
        accent_spec(ToastTone::Info) == "var(--text-brand)"@,
        accent_spec(ToastTone::Success) == "var(--status-online)"@,
        accent_spec(ToastTone::Danger) == "var(--status-danger)"@,
        a != b ==> accent_spec(a) != accent_spec(b),
{
    reveal_strlit("var(--text-brand)");
    reveal_strlit("var(--status-online)");
    reveal_strlit("var(--status-danger)");
    if a != b && accent_spec(a) == accent_spec(b) {
        assert(accent_spec(a).len() == accent_spec(b).len());
        assert(accent_spec(a)[6] == accent_spec(b)[6]);
        assert(accent_spec(a)[15] == accent_spec(b)[15]);
        assert(false);
    }
}

} // verus!
