//! Lists of records found by a string key, and stores that map a key to a
//! list: the bookkeeping behind the offline client's state.

use vstd::prelude::*;

use crate::model::{Convo, Device, NotifToggle, PublicRoom, PublicSpace, Space};
use crate::text::str_eq;

verus! {

/// A record found by a string key (its id).
pub trait Keyed: Sized {
    spec fn key_view(&self) -> Seq<char>;

    fn key(&self) -> (k: &String)
        ensures
            k@ == self.key_view(),
    ;
}

impl Keyed for Device {
    open spec fn key_view(&self) -> Seq<char> { self.id@ }

    fn key(&self) -> (k: &String) { &self.id }
}

impl Keyed for Convo {
    open spec fn key_view(&self) -> Seq<char> { self.id@ }

    fn key(&self) -> (k: &String) { &self.id }
}

impl Keyed for Space {
    open spec fn key_view(&self) -> Seq<char> { self.id@ }

    fn key(&self) -> (k: &String) { &self.id }
}

impl Keyed for PublicRoom {
    open spec fn key_view(&self) -> Seq<char> { self.id@ }

    fn key(&self) -> (k: &String) { &self.id }
}

impl Keyed for PublicSpace {
    open spec fn key_view(&self) -> Seq<char> { self.id@ }

    fn key(&self) -> (k: &String) { &self.id }
}

impl Keyed for NotifToggle {
    open spec fn key_view(&self) -> Seq<char> { self.id@ }

    fn key(&self) -> (k: &String) { &self.id }
}

/// Whether some record of `s` has key `k`.
pub open spec fn has_keyed<T: Keyed>(s: Seq<T>, k: Seq<char>) -> bool {
    exists|i: int| 0 <= i < s.len() && #[trigger] s[i].key_view() == k
}

/// `i` is the first position of `s` holding key `k`.
pub open spec fn first_keyed<T: Keyed>(s: Seq<T>, k: Seq<char>, i: int) -> bool {
    &&& 0 <= i < s.len()
    &&& s[i].key_view() == k
    &&& forall|j: int| 0 <= j < i ==> #[trigger] s[j].key_view() != k
}

/// The records of `s` whose key is not `k`, in order.
pub open spec fn without_keyed<T: Keyed>(s: Seq<T>, k: Seq<char>) -> Seq<T> {
    s.filter(not_keyed(k))
}

/// Holds of the records whose key is not `k`.
pub open spec fn not_keyed<T: Keyed>(k: Seq<char>) -> spec_fn(T) -> bool {
    |x: T| x.key_view() != k
}

/// The first position of a record keyed `key`, if any.
pub fn position_of_key<T: Keyed>(v: &Vec<T>, key: &str) -> (r: Option<usize>)
    ensures
        r matches Some(i) ==> first_keyed(v@, key@, i as int),
        r is None <==> !has_keyed(v@, key@),
{
    let mut i: usize = 0;
    while i < v.len()
        invariant
            0 <= i <= v@.len(),
            forall|j: int| 0 <= j < i ==> #[trigger] v@[j].key_view() != key@,
        decreases v@.len() - i,
    {
        if str_eq(v[i].key().as_str(), key) {
            return Some(i);
        }
        i = i + 1;
    }
    None
}

/// Removes every record keyed `key`, keeping the others in order.
pub fn remove_keyed<T: Keyed>(v: &mut Vec<T>, key: &str)
    ensures
        final(v)@ == without_keyed(old(v)@, key@),
{
    let ghost orig = v@;
    let mut kept: Vec<T> = Vec::new();
    let ghost mut taken: int = 0;
    while v.len() > 0
        invariant
            0 <= taken <= orig.len(),
            v@ == orig.subrange(taken, orig.len() as int),
            kept@ == without_keyed(orig.take(taken), key@),
        decreases v@.len(),
    {
        let x = v.remove(0);
        proof {
            assert(orig.take(taken + 1).drop_last() =~= orig.take(taken));
            assert(orig.take(taken + 1).last() == x);
            reveal(Seq::filter);
        }
        let keep = !str_eq(x.key().as_str(), key);
        if keep {
            kept.push(x);
        }
        proof {
            taken = taken + 1;
            assert(v@ =~= orig.subrange(taken, orig.len() as int));
        }
    }
    assert(orig.take(orig.len() as int) =~= orig);
    *v = kept;
}

/// Whether some entry of a keyed store has key `k`.
pub open spec fn has_entry<V>(e: Seq<(String, V)>, k: Seq<char>) -> bool {
    exists|i: int| 0 <= i < e.len() && #[trigger] e[i].0@ == k
}

/// The position of key `k` in a keyed store.
pub open spec fn entry_index<V>(e: Seq<(String, V)>, k: Seq<char>) -> int {
    choose|i: int| 0 <= i < e.len() && #[trigger] e[i].0@ == k
}

/// No key occurs twice in a keyed store.
pub open spec fn entries_distinct<V>(e: Seq<(String, V)>) -> bool {
    forall|i: int, j: int| 0 <= i < e.len() && 0 <= j < e.len() && #[trigger] e[i].0@ == #[trigger] e[j].0@ ==> i == j
}

/// A keyed store as a map from key to the plain value of its entry.
pub open spec fn store_view<V, W>(e: Seq<(String, V)>, f: spec_fn(V) -> W) -> Map<Seq<char>, W> {
    Map::new(|k: Seq<char>| has_entry(e, k), |k: Seq<char>| f(e[entry_index(e, k)].1))
}

pub proof fn lemma_entry_index<V>(e: Seq<(String, V)>, i: int)
    requires
        entries_distinct(e),
        0 <= i < e.len(),
    ensures
        has_entry(e, e[i].0@),
        entry_index(e, e[i].0@) == i,
{
    assert(e[i].0@ == e[i].0@);
}

/// Replacing the value of an existing entry updates the map at its key.
pub proof fn lemma_store_update<V, W>(e: Seq<(String, V)>, i: int, entry: (String, V), f: spec_fn(V) -> W)
    requires
        entries_distinct(e),
        0 <= i < e.len(),
        entry.0@ == e[i].0@,
    ensures
        entries_distinct(e.update(i, entry)),
        store_view(e.update(i, entry), f) == store_view(e, f).insert(entry.0@, f(entry.1)),
{
    let e2 = e.update(i, entry);
    assert forall|a: int, b: int| 0 <= a < e2.len() && 0 <= b < e2.len() && #[trigger] e2[a].0@ == #[trigger] e2[b].0@ implies a == b by {
        assert(e2[a].0@ == e[a].0@);
        assert(e2[b].0@ == e[b].0@);
    }
    assert forall|k: Seq<char>| has_entry(e2, k) == (has_entry(e, k) || k == entry.0@) by {
        if has_entry(e, k) {
            let j = choose|j: int| 0 <= j < e.len() && #[trigger] e[j].0@ == k;
            assert(e2[j].0@ == k);
        }
        if has_entry(e2, k) {
            let j = choose|j: int| 0 <= j < e2.len() && #[trigger] e2[j].0@ == k;
            assert(e[j].0@ == k);
        }
        if k == entry.0@ {
            assert(e2[i].0@ == k);
        }
    }
    assert forall|k: Seq<char>| #[trigger] has_entry(e2, k) && k != entry.0@ implies entry_index(e2, k) == entry_index(e, k) by {
        let j = entry_index(e2, k);
        assert(e2[j].0@ == k);
        assert(j != i);
        assert(e[j].0@ == k);
        lemma_entry_index(e, j);
    }
    lemma_entry_index(e2, i);
    assert(store_view(e2, f) =~= store_view(e, f).insert(entry.0@, f(entry.1)));
}

/// Appending an entry for a new key adds that key to the map.
pub proof fn lemma_store_push<V, W>(e: Seq<(String, V)>, entry: (String, V), f: spec_fn(V) -> W)
    requires
        entries_distinct(e),
        !has_entry(e, entry.0@),
    ensures
        entries_distinct(e.push(entry)),
        store_view(e.push(entry), f) == store_view(e, f).insert(entry.0@, f(entry.1)),
{
    let e2 = e.push(entry);
    let n = e.len() as int;
    assert forall|a: int, b: int| 0 <= a < e2.len() && 0 <= b < e2.len() && #[trigger] e2[a].0@ == #[trigger] e2[b].0@ implies a == b by {
        if a < n && b < n {
            assert(e[a].0@ == e[b].0@);
        } else if a < n {
            assert(e[a].0@ == entry.0@);
        } else if b < n {
            assert(e[b].0@ == entry.0@);
        }
    }
    assert forall|k: Seq<char>| has_entry(e2, k) == (has_entry(e, k) || k == entry.0@) by {
        if has_entry(e, k) {
            let j = choose|j: int| 0 <= j < e.len() && #[trigger] e[j].0@ == k;
            assert(e2[j].0@ == k);
        }
        if has_entry(e2, k) {
            let j = choose|j: int| 0 <= j < e2.len() && #[trigger] e2[j].0@ == k;
            if j < n {
                assert(e[j].0@ == k);
            }
        }
        if k == entry.0@ {
            assert(e2[n].0@ == k);
        }
    }
    assert forall|k: Seq<char>| #[trigger] has_entry(e2, k) && k != entry.0@ implies entry_index(e2, k) == entry_index(e, k) by {
        let j = entry_index(e2, k);
        assert(e2[j].0@ == k);
        assert(j != n);
        assert(e[j].0@ == k);
        lemma_entry_index(e, j);
    }
    lemma_entry_index(e2, n);
    assert(store_view(e2, f) =~= store_view(e, f).insert(entry.0@, f(entry.1)));
}

/// Removing an entry removes its key from the map.
pub proof fn lemma_store_remove<V, W>(e: Seq<(String, V)>, i: int, f: spec_fn(V) -> W)
    requires
        entries_distinct(e),
        0 <= i < e.len(),
    ensures
        entries_distinct(e.remove(i)),
        store_view(e.remove(i), f) == store_view(e, f).remove(e[i].0@),
{
    let e2 = e.remove(i);
    let k = e[i].0@;
    assert forall|a: int, b: int| 0 <= a < e2.len() && 0 <= b < e2.len() && #[trigger] e2[a].0@ == #[trigger] e2[b].0@ implies a == b by {
        let a0 = if a < i { a } else { a + 1 };
        let b0 = if b < i { b } else { b + 1 };
        assert(e2[a] == e[a0] && e2[b] == e[b0]);
    }
    assert forall|c: Seq<char>| has_entry(e2, c) == (has_entry(e, c) && c != k) by {
        if has_entry(e2, c) {
            let j = choose|j: int| 0 <= j < e2.len() && #[trigger] e2[j].0@ == c;
            let j0 = if j < i { j } else { j + 1 };
            assert(e[j0].0@ == c);
            assert(j0 != i);
        }
        if has_entry(e, c) && c != k {
            let j = choose|j: int| 0 <= j < e.len() && #[trigger] e[j].0@ == c;
            assert(j != i);
            let j2 = if j < i { j } else { j - 1 };
            assert(e2[j2].0@ == c);
        }
    }
    assert forall|c: Seq<char>| #[trigger] has_entry(e2, c) implies store_view(e2, f)[c] == store_view(e, f)[c] by {
        let j = entry_index(e2, c);
        let j0 = if j < i { j } else { j + 1 };
        assert(e2[j] == e[j0]);
        lemma_entry_index(e, j0);
    }
    assert(store_view(e2, f) =~= store_view(e, f).remove(k));
}

/// The position of the entry keyed `key`, if there is one.
pub fn find_entry<V>(e: &Vec<(String, V)>, key: &str) -> (r: Option<usize>)
    ensures
        r matches Some(i) ==> i < e@.len() && e@[i as int].0@ == key@,
        r is None <==> !has_entry(e@, key@),
{
    let mut i: usize = 0;
    while i < e.len()
        invariant
            0 <= i <= e@.len(),
            forall|j: int| 0 <= j < i ==> #[trigger] e@[j].0@ != key@,
        decreases e@.len() - i,
    {
        if str_eq(e[i].0.as_str(), key) {
            return Some(i);
        }
        i = i + 1;
    }
    None
}

/// `a` comes before `b` when sorting stably by `keys`: smaller key first,
/// and in listing order between equal keys.
pub open spec fn sorts_before(keys: Seq<u128>, a: int, b: int) -> bool {
    keys[a] < keys[b] || (keys[a] == keys[b] && a < b)
}

/// `order` lists every position exactly once, sorted stably by `keys`.
pub open spec fn is_stable_order(keys: Seq<u128>, order: Seq<usize>) -> bool {
    &&& order.len() == keys.len()
    &&& forall|i: int| 0 <= i < order.len() ==> #[trigger] order[i] < keys.len()
    &&& forall|i: int, j: int| 0 <= i < j < order.len() ==> sorts_before(keys, #[trigger] order[i] as int, #[trigger] order[j] as int)
}

/// The positions of `keys` sorted stably by their keys.
pub fn stable_order(keys: &Vec<u128>) -> (order: Vec<usize>)
    ensures
        is_stable_order(keys@, order@),
{
    let n = keys.len();
    let mut order: Vec<usize> = Vec::new();
    for k in 0..n
        invariant
            n == keys@.len(),
            order@.len() == k,
            forall|i: int| 0 <= i < order@.len() ==> #[trigger] order@[i] < k,
            forall|i: int, j: int| 0 <= i < j < order@.len() ==> sorts_before(keys@, #[trigger] order@[i] as int, #[trigger] order@[j] as int),
    {
        let mut p = order.len();
        while p > 0 && keys[k] < keys[order[p - 1]]
            invariant
                n == keys@.len(),
                k < n,
                0 <= p <= order@.len(),
                forall|i: int| 0 <= i < order@.len() ==> #[trigger] order@[i] < k,
                forall|i: int| p <= i < order@.len() ==> keys@[k as int] < keys@[#[trigger] order@[i] as int],
            decreases p,
        {
            p = p - 1;
        }
        let ghost before = order@;
        order.insert(p, k);
        proof {
            assert forall|i: int, j: int| 0 <= i < j < order@.len() implies sorts_before(keys@, #[trigger] order@[i] as int, #[trigger] order@[j] as int) by {
                if j < p {
                    assert(order@[i] == before[i] && order@[j] == before[j]);
                } else if j == p {
                    assert(order@[i] == before[i]);
                    assert(before[i] < k);
                    if p > 0 {
                        assert(!(keys@[k as int] < keys@[before[p - 1] as int]));
                        if i < p - 1 {
                            assert(sorts_before(keys@, before[i] as int, before[p - 1] as int));
                        }
                    }
                } else if i == p {
                    assert(order@[j] == before[j - 1]);
                    assert(keys@[k as int] < keys@[before[j - 1] as int]);
                } else if i < p {
                    assert(order@[i] == before[i] && order@[j] == before[j - 1]);
                } else {
                    assert(order@[i] == before[i - 1] && order@[j] == before[j - 1]);
                }
            }
        }
    }
    order
}

} // verus!
