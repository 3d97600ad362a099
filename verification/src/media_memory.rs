//! Media resolved for rendering, held in memory for the session: each key
//! (an MXC URI, with the requested thumbnail size) maps to its `data:` URI,
//! or to an empty placeholder while its fetch is in flight. The held bytes
//! are capped; past the cap the oldest resolved entries give way.

use vstd::prelude::*;

use crate::model::{strings_view, Duplicate};
use crate::store::{entries_distinct, find_entry, has_entry, lemma_entry_index, lemma_store_push, lemma_store_remove, lemma_store_update, store_view};
use crate::text::{owned, push_dec, push_str, str_eq, string_from_chars};

verus! {

/// Bytes the resolved URIs may hold together (192 MiB).
pub const MEM_CAP_BYTES: u64 = 201_326_592;

/// The key of a resolution: the MXC URI, and `|{w}x{h}` for a thumbnail.
pub open spec fn media_key_spec(mxc: Seq<char>, thumb: Option<(u32, u32)>) -> Seq<char> {
    match thumb {
        Some((w, h)) => mxc + "|"@ + crate::text::dec(w as nat) + "x"@ + crate::text::dec(h as nat),
        None => mxc,
    }
}

pub fn media_key(mxc: &str, thumb: Option<(u32, u32)>) -> (k: String)
    ensures
        k@ == media_key_spec(mxc@, thumb),
{
    match thumb {
        Some((w, h)) => {
            let mut v: Vec<char> = Vec::new();
            push_str(&mut v, mxc);
            push_str(&mut v, "|");
            push_dec(&mut v, w as u64);
            push_str(&mut v, "x");
            push_dec(&mut v, h as u64);
            string_from_chars(v.as_slice())
        },
        None => owned(mxc),
    }
}

/// Bytes of a string's UTF-8 encoding.
pub open spec fn byte_len(s: Seq<char>) -> nat {
    vstd::utf8::encode_utf8(s).len()
}

/// Bytes held by a list of entries.
pub open spec fn total_bytes(e: Seq<(String, String)>) -> nat
    decreases e.len(),
{
    if e.len() == 0 {
        0
    } else {
        total_bytes(e.drop_last()) + byte_len(e.last().1@)
    }
}

/// A string takes no bytes exactly when it is empty.
pub proof fn lemma_byte_len_zero(s: Seq<char>)
    ensures
        (byte_len(s) == 0) == (s.len() == 0),
{
    if s.len() > 0 {
        let head = vstd::utf8::encode_scalar(s[0] as u32);
        assert(head.len() >= 1);
        assert(vstd::utf8::encode_utf8(s) == head + vstd::utf8::encode_utf8(s.drop_first()));
    } else {
        assert(vstd::utf8::encode_utf8(s) =~= Seq::<u8>::empty());
    }
}

pub open spec fn uri_view() -> spec_fn(String) -> Seq<char> {
    |s: String| s@
}

/// Bytes a sweep has freed after visiting the first `j` keys of the queue:
/// those of the visited keys that had an entry.
pub open spec fn freed(uris: Map<Seq<char>, Seq<char>>, queue: Seq<Seq<char>>, j: int) -> nat
    decreases j,
{
    if j <= 0 {
        0
    } else {
        freed(uris, queue, j - 1) + if uris.contains_key(queue[j - 1]) {
            byte_len(uris[queue[j - 1]])
        } else {
            0
        }
    }
}

/// Whether a sweep stops at queue position `j`: the queue is exhausted,
/// the key is the entry that triggered the sweep, the key's entry is a
/// placeholder still in flight, or enough has been freed.
pub open spec fn sweep_stops(uris: Map<Seq<char>, Seq<char>>, queue: Seq<Seq<char>>, inserted: Seq<char>, cap: nat, total: nat, j: int) -> bool {
    ||| j >= queue.len()
    ||| queue[j] == inserted
    ||| (uris.contains_key(queue[j]) && byte_len(uris[queue[j]]) == 0)
    ||| total <= cap + freed(uris, queue, j)
}

/// The eviction queue of a sweep: the recorded order, with the entry that
/// triggered it appended when it is not recorded yet.
pub open spec fn sweep_queue(order: Seq<Seq<char>>, inserted: Seq<char>) -> Seq<Seq<char>> {
    if order.contains(inserted) {
        order
    } else {
        order.push(inserted)
    }
}

/// What recording `inserted` and holding to the cap do to entries and
/// order. The key is recorded at the back of the order unless it is there
/// already. Within the cap that is all. Past it the queue is visited
/// oldest first up to its first stopping point `k`: the visited keys leave
/// the order and their entries are evicted; the rest of the queue is the
/// new order.
pub open spec fn swept(
    before: Seq<(String, String)>,
    order: Seq<Seq<char>>,
    inserted: Seq<char>,
    cap: nat,
    after: Seq<(String, String)>,
    after_order: Seq<Seq<char>>,
) -> bool {
    let uris = store_view(before, uri_view());
    let total = total_bytes(before);
    let queue = sweep_queue(order, inserted);
    if total <= cap {
        store_view(after, uri_view()) == uris && after_order == queue
    } else {
        exists|k: int|
            #![trigger queue.subrange(k, queue.len() as int)]
            0 <= k <= queue.len() && sweep_stops(uris, queue, inserted, cap, total, k) && (forall|i: int|
                0 <= i < k ==> !#[trigger] sweep_stops(uris, queue, inserted, cap, total, i)) && after_order == queue.subrange(
                k,
                queue.len() as int,
            ) && store_view(after, uri_view()) == uris.remove_keys(queue.subrange(0, k).to_set())
    }
}

/// A sweep never evicts the entry that triggered it, nor a placeholder of
/// a fetch still in flight.
pub proof fn law_sweep_spares_new_and_pending(
    before: Seq<(String, String)>,
    order: Seq<Seq<char>>,
    inserted: Seq<char>,
    cap: nat,
    after: Seq<(String, String)>,
    after_order: Seq<Seq<char>>,
    key: Seq<char>,
)
    requires
        swept(before, order, inserted, cap, after, after_order),
        store_view(before, uri_view()).contains_key(key),
        key == inserted || store_view(before, uri_view())[key].len() == 0,
    ensures
        store_view(after, uri_view()).contains_key(key),
        store_view(after, uri_view())[key] == store_view(before, uri_view())[key],
{
    let uris = store_view(before, uri_view());
    let total = total_bytes(before);
    if total > cap {
        let queue = sweep_queue(order, inserted);
        let k = choose|k: int|
            #![trigger queue.subrange(k, queue.len() as int)]
            0 <= k <= queue.len() && sweep_stops(uris, queue, inserted, cap, total, k) && (forall|i: int|
                0 <= i < k ==> !#[trigger] sweep_stops(uris, queue, inserted, cap, total, i)) && after_order == queue.subrange(
                k,
                queue.len() as int,
            ) && store_view(after, uri_view()) == uris.remove_keys(queue.subrange(0, k).to_set());
        lemma_byte_len_zero(uris[key]);
        if queue.subrange(0, k).to_set().contains(key) {
            let i = choose|i: int| 0 <= i < k && #[trigger] queue.subrange(0, k)[i] == key;
            assert(queue[i] == key);
            assert(sweep_stops(uris, queue, inserted, cap, total, i));
        }
    }
}

/// Across calls the order is the order of first inserts and eviction
/// takes the oldest: each call records a new key at the back, leaves the
/// recorded keys in their order, and evicts only from the front: a prefix
/// of the queue leaves both the order and the entries, and nothing else
/// does. Within the cap the prefix is empty.
pub proof fn law_eviction_is_oldest_first(
    before: Seq<(String, String)>,
    order: Seq<Seq<char>>,
    inserted: Seq<char>,
    cap: nat,
    after: Seq<(String, String)>,
    after_order: Seq<Seq<char>>,
)
    requires
        swept(before, order, inserted, cap, after, after_order),
    ensures
        sweep_queue(order, inserted).last() == inserted || order.contains(inserted),
        exists|k: int|
            0 <= k <= sweep_queue(order, inserted).len()
                && after_order == #[trigger] sweep_queue(order, inserted).subrange(k, sweep_queue(order, inserted).len() as int)
                && store_view(after, uri_view()) == store_view(before, uri_view()).remove_keys(
                sweep_queue(order, inserted).subrange(0, k).to_set(),
            ) && (total_bytes(before) <= cap ==> k == 0),
{
    let queue = sweep_queue(order, inserted);
    let uris = store_view(before, uri_view());
    if total_bytes(before) <= cap {
        assert(queue.subrange(0, queue.len() as int) =~= queue);
        assert(queue.subrange(0, 0).to_set() =~= Set::empty());
        assert(uris.remove_keys(Set::empty()) =~= uris);
        assert(after_order == queue.subrange(0, queue.len() as int));
    }
}

/// The entries with `key` set to `uri`: replaced in place when present,
/// appended otherwise.
pub open spec fn put_entry(e: Seq<(String, String)>, key: String, uri: String) -> Seq<(String, String)> {
    if has_entry(e, key@) {
        let i = crate::store::entry_index(e, key@);
        e.update(i, (e[i].0, uri))
    } else {
        e.push((key, uri))
    }
}

/// The session's resolved media: entries `(key, uri)` with distinct keys,
/// and the order in which resolved keys were recorded for eviction.
pub struct MediaMemory {
    pub entries: Vec<(String, String)>,
    pub order: Vec<String>,
}

impl MediaMemory {
    pub open spec fn wf(&self) -> bool {
        &&& entries_distinct(self.entries@)
        &&& strings_view(self.order@).no_duplicates()
    }

    pub open spec fn uris(&self) -> Map<Seq<char>, Seq<char>> {
        store_view(self.entries@, uri_view())
    }

    pub fn new() -> (m: MediaMemory)
        ensures
            m.wf(),
            m.entries@.len() == 0,
            m.order@.len() == 0,
    {
        MediaMemory { entries: Vec::new(), order: Vec::new() }
    }

    /// Claims a key for a fetch: `false` when it is resolved already or
    /// another fetch of it is in flight; otherwise records an empty
    /// placeholder for it.
    pub fn begin(&mut self, key: String) -> (fetch: bool)
        requires
            old(self).wf(),
        ensures
            final(self).wf(),
            fetch == !old(self).uris().contains_key(key@),
            fetch ==> final(self).uris() == old(self).uris().insert(key@, Seq::empty()),
            !fetch ==> final(self).entries@ == old(self).entries@,
            final(self).order@ == old(self).order@,
    {
        match find_entry(&self.entries, key.as_str()) {
            Some(i) => {
                proof {
                    lemma_entry_index(self.entries@, i as int);
                }
                false
            },
            None => {
                let entry = (key, String::new());
                proof {
                    lemma_store_push(self.entries@, entry, uri_view());
                }
                self.entries.push(entry);
                true
            },
        }
    }

    /// Drops the placeholder of a failed fetch, so a later request retries.
    pub fn failed(&mut self, key: &str)
        requires
            old(self).wf(),
        ensures
            final(self).wf(),
            final(self).uris() == old(self).uris().remove(key@),
            final(self).order@ == old(self).order@,
    {
        match find_entry(&self.entries, key) {
            Some(i) => {
                proof {
                    lemma_store_remove(self.entries@, i as int, uri_view());
                }
                self.entries.remove(i);
            },
            None => {
                assert(self.uris() =~= self.uris().remove(key@));
            },
        }
    }

    /// The resolved URI of a key; placeholders of fetches in flight are
    /// not URIs.
    pub fn uri(&self, key: &str) -> (r: Option<String>)
        requires
            self.wf(),
        ensures
            match r {
                Some(u) => self.uris().contains_key(key@) && u@ == self.uris()[key@] && u@.len() > 0,
                None => !self.uris().contains_key(key@) || self.uris()[key@].len() == 0,
            },
    {
        match find_entry(&self.entries, key) {
            Some(i) => {
                proof {
                    lemma_entry_index(self.entries@, i as int);
                }
                proof {
                    lemma_byte_len_zero(self.entries@[i as int].1@);
                }
                if self.entries[i].1.as_str().as_bytes().len() == 0 {
                    None
                } else {
                    Some(self.entries[i].1.duplicate())
                }
            },
            None => None,
        }
    }

    /// Records a fetched URI for a key, then holds the entries to the cap.
    pub fn resolved(&mut self, key: String, uri: String)
        requires
            old(self).wf(),
        ensures
            final(self).wf(),
            swept(
                put_entry(old(self).entries@, key, uri),
                strings_view(old(self).order@),
                key@,
                MEM_CAP_BYTES as nat,
                final(self).entries@,
                strings_view(final(self).order@),
            ),
    {
        let ghost e = self.entries@;
        match find_entry(&self.entries, key.as_str()) {
            Some(i) => {
                proof {
                    lemma_entry_index(e, i as int);
                }
                let (k, _) = self.entries.remove(i);
                let ghost entry = (k, uri);
                self.entries.insert(i, (k, uri));
                proof {
                    assert(self.entries@ =~= e.update(i as int, entry));
                    lemma_store_update(e, i as int, entry, uri_view());
                }
            },
            None => {
                let entry = (key.duplicate(), uri);
                proof {
                    lemma_store_push(e, entry, uri_view());
                }
                self.entries.push(entry);
            },
        }
        assert(self.entries@ == put_entry(e, key, uri));
        self.enforce_cap(key.as_str(), MEM_CAP_BYTES);
    }

    /// Records the insert of `inserted` (first insert wins its place) and
    /// holds the resolved entries to a byte cap: past the cap, the oldest
    /// recorded entries are evicted until the held bytes fit, never the
    /// entry just recorded and never past a placeholder still in flight.
    pub fn enforce_cap(&mut self, inserted: &str, cap: u64)
        requires
            old(self).wf(),
        ensures
            final(self).wf(),
            swept(old(self).entries@, strings_view(old(self).order@), inserted@, cap as nat, final(self).entries@, strings_view(final(self).order@)),
    {
        let ghost e0 = self.entries@;
        let ghost uris = store_view(e0, uri_view());
        let mut total: u128 = 0;
        for i in 0..self.entries.len()
            invariant
                self.entries@ == e0,
                total == total_bytes(e0.take(i as int)),
                total <= i * 0xffff_ffff_ffff_ffffu128,
        {
            assert(e0.take(i + 1).drop_last() =~= e0.take(i as int));
            assert(total_bytes(e0.take(i + 1)) == total_bytes(e0.take(i as int)) + byte_len(e0[i as int].1@));
            let n = self.entries[i].1.as_str().as_bytes().len();
            total = total + n as u128;
        }
        assert(e0.take(e0.len() as int) =~= e0);
        let mut queue: Vec<String> = Vec::new();
        std::mem::swap(&mut queue, &mut self.order);
        let ghost order0 = strings_view(queue@);
        let mut known = false;
        for j in 0..queue.len()
            invariant
                order0 == strings_view(queue@),
                known == exists|t: int| 0 <= t < j && order0[t] == inserted@,
        {
            assert(order0[j as int] == queue@[j as int]@);
            if str_eq(queue[j].as_str(), inserted) {
                known = true;
            }
        }
        assert(known == order0.contains(inserted@));
        if !known {
            queue.push(owned(inserted));
            assert(strings_view(queue@) =~= order0.push(inserted@));
        }
        let ghost q = strings_view(queue@);
        assert(q == sweep_queue(order0, inserted@));
        if total <= cap as u128 {
            self.order = queue;
            return;
        }
        let qlen = queue.len();
        assert(q.len() == qlen);
        let mut k: usize = 0;
        let mut freed_now: u128 = 0;
        while k < queue.len()
            invariant
                q == strings_view(queue@),
                q.no_duplicates(),
                k <= q.len(),
                q.len() <= usize::MAX,
                total == total_bytes(e0),
                total > cap,
                freed_now == freed(uris, q, k as int),
                freed_now <= k * 0xffff_ffff_ffff_ffffu128,
                entries_distinct(self.entries@),
                store_view(self.entries@, uri_view()) == uris.remove_keys(q.subrange(0, k as int).to_set()),
                forall|i: int| 0 <= i < k ==> !#[trigger] sweep_stops(uris, q, inserted@, cap as nat, total as nat, i),
            ensures
                k <= q.len(),
                sweep_stops(uris, q, inserted@, cap as nat, total as nat, k as int),
                forall|i: int| 0 <= i < k ==> !#[trigger] sweep_stops(uris, q, inserted@, cap as nat, total as nat, i),
                store_view(self.entries@, uri_view()) == uris.remove_keys(q.subrange(0, k as int).to_set()),
                entries_distinct(self.entries@),
            decreases q.len() - k,
        {
            if total <= cap as u128 + freed_now {
                break;
            }
            let cand = &queue[k];
            assert(q[k as int] == cand@);
            if str_eq(cand.as_str(), inserted) {
                break;
            }
            let ghost before = self.entries@;
            let ghost visited = q.subrange(0, k as int).to_set();
            proof {
                assert(!visited.contains(q[k as int])) by {
                    if visited.contains(q[k as int]) {
                        let j = choose|j: int| 0 <= j < k && q.subrange(0, k as int)[j] == q[k as int];
                        assert(q[j] == q[k as int]);
                    }
                }
            }
            match find_entry(&self.entries, cand.as_str()) {
                Some(i) => {
                    proof {
                        lemma_entry_index(before, i as int);
                    }
                    let n = self.entries[i].1.as_str().as_bytes().len();
                    assert(has_entry(before, q[k as int]));
                    assert(store_view(before, uri_view()).contains_key(q[k as int]));
                    assert(store_view(before, uri_view())[q[k as int]] == before[i as int].1@);
                    assert(uris.remove_keys(visited).contains_key(q[k as int]));
                    assert(uris.contains_key(q[k as int]) && uris[q[k as int]] == before[i as int].1@);
                    if n == 0 {
                        break;
                    }
                    freed_now = freed_now + n as u128;
                    proof {
                        lemma_store_remove(before, i as int, uri_view());
                    }
                    self.entries.remove(i);
                },
                None => {
                    assert(!has_entry(before, q[k as int]));
                    assert(!store_view(before, uri_view()).contains_key(q[k as int]));
                    assert(!uris.remove_keys(visited).contains_key(q[k as int]));
                    assert(!uris.contains_key(q[k as int]));
                },
            }
            proof {
                assert(q.subrange(0, k + 1) =~= q.subrange(0, k as int).push(q[k as int]));
                assert forall|x: Seq<char>| #[trigger] q.subrange(0, k + 1).contains(x) == (q.subrange(0, k as int).contains(x) || x == q[k as int]) by {
                    if q.subrange(0, k + 1).contains(x) {
                        let t = choose|t: int| 0 <= t < k + 1 && #[trigger] q.subrange(0, k + 1)[t] == x;
                        if t < k {
                            assert(q.subrange(0, k as int)[t] == x);
                        }
                    }
                    if q.subrange(0, k as int).contains(x) {
                        let t = choose|t: int| 0 <= t < k && #[trigger] q.subrange(0, k as int)[t] == x;
                        assert(q.subrange(0, k + 1)[t] == x);
                    }
                    if x == q[k as int] {
                        assert(q.subrange(0, k + 1)[k as int] == x);
                    }
                }
                assert(q.subrange(0, k + 1).to_set() =~= visited.insert(q[k as int]));
                assert(store_view(self.entries@, uri_view()) =~= uris.remove_keys(q.subrange(0, k + 1).to_set()));
            }
            k = k + 1;
        }
        let mut rest: Vec<String> = Vec::new();
        let mut j: usize = k;
        while j < queue.len()
            invariant
                q == strings_view(queue@),
                k <= j <= q.len(),
                strings_view(rest@) == q.subrange(k as int, j as int),
            decreases q.len() - j,
        {
            let ghost prev = rest@;
            let x = queue[j].duplicate();
            assert(x@ == q[j as int]);
            rest.push(x);
            assert(rest@ == prev.push(x));
            assert(strings_view(prev).len() == prev.len());
            assert(prev.len() == j - k);
            assert forall|t: int| 0 <= t < j + 1 - k implies #[trigger] strings_view(rest@)[t] == q.subrange(k as int, j + 1)[t] by {
                if t < j - k {
                    assert(rest@[t] == prev[t]);
                    assert(strings_view(prev)[t] == q.subrange(k as int, j as int)[t]);
                }
            }
            assert(strings_view(rest@) =~= q.subrange(k as int, j + 1));
            j = j + 1;
        }
        proof {
            let r = q.subrange(k as int, q.len() as int);
            assert forall|a: int, b: int| 0 <= a < r.len() && 0 <= b < r.len() && a != b implies r[a] != r[b] by {
                assert(r[a] == q[k + a] && r[b] == q[k + b]);
            }
        }
        self.order = rest;
    }
}

} // verus!
