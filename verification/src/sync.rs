//! The room list as the sync stream delivers it: batches of list diffs
//! applied in order, rows paired with their mapped conversations, and the
//! grouping of rooms under the spaces that list them.

use vstd::prelude::*;

use crate::model::{opt_view, spaces_view, strings_view, Convo, ConvoKind, Duplicate, Presence, Space, SpaceView};
use crate::store::{entries_distinct, find_entry, has_entry, lemma_store_push, store_view};
use crate::text::{chars_of, lemma_lex_irrefl, lemma_lex_total, lemma_lex_trans, lex_less, lex_lt, owned};

verus! {

/// One change to a list, as the room list stream reports it.
pub enum ListDiff<T> {
    Append { values: Vec<T> },
    Clear,
    PushFront { value: T },
    PushBack { value: T },
    PopFront,
    PopBack,
    Insert { index: usize, value: T },
    Replace { index: usize, value: T },
    Remove { index: usize },
    Truncate { length: usize },
    Reset { values: Vec<T> },
}

/// A list change as plain values.
pub enum DiffView<T> {
    Append(Seq<T>),
    Clear,
    PushFront(T),
    PushBack(T),
    PopFront,
    PopBack,
    Insert(nat, T),
    Replace(nat, T),
    Remove(nat),
    Truncate(nat),
    Reset(Seq<T>),
}

impl<T> ListDiff<T> {
    pub open spec fn spec(self) -> DiffView<T> {
        match self {
            ListDiff::Append { values } => DiffView::Append(values@),
            ListDiff::Clear => DiffView::Clear,
            ListDiff::PushFront { value } => DiffView::PushFront(value),
            ListDiff::PushBack { value } => DiffView::PushBack(value),
            ListDiff::PopFront => DiffView::PopFront,
            ListDiff::PopBack => DiffView::PopBack,
            ListDiff::Insert { index, value } => DiffView::Insert(index as nat, value),
            ListDiff::Replace { index, value } => DiffView::Replace(index as nat, value),
            ListDiff::Remove { index } => DiffView::Remove(index as nat),
            ListDiff::Truncate { length } => DiffView::Truncate(length as nat),
            ListDiff::Reset { values } => DiffView::Reset(values@),
        }
    }
}

pub open spec fn diffs_spec<T>(ds: Seq<ListDiff<T>>) -> Seq<DiffView<T>> {
    ds.map_values(|d: ListDiff<T>| d.spec())
}

/// One change applied to a list. Positions past the end are tolerated: an
/// insertion goes last, and a replacement, a removal or a pop on an empty
/// list change nothing.
pub open spec fn apply_diff<T>(s: Seq<T>, d: DiffView<T>) -> Seq<T> {
    match d {
        DiffView::Append(values) => s + values,
        DiffView::Clear => Seq::empty(),
        DiffView::PushFront(v) => seq![v] + s,
        DiffView::PushBack(v) => s.push(v),
        DiffView::PopFront => if s.len() > 0 { s.drop_first() } else { s },
        DiffView::PopBack => if s.len() > 0 { s.drop_last() } else { s },
        DiffView::Insert(i, v) => {
            let at = if i < s.len() { i as int } else { s.len() as int };
            s.insert(at, v)
        },
        DiffView::Replace(i, v) => if i < s.len() { s.update(i as int, v) } else { s },
        DiffView::Remove(i) => if i < s.len() { s.remove(i as int) } else { s },
        DiffView::Truncate(n) => if n < s.len() { s.take(n as int) } else { s },
        DiffView::Reset(values) => values,
    }
}

/// A batch of changes applied in order.
pub open spec fn apply_all<T>(s: Seq<T>, ds: Seq<DiffView<T>>) -> Seq<T>
    decreases ds.len(),
{
    if ds.len() == 0 {
        s
    } else {
        apply_all(apply_diff(s, ds[0]), ds.drop_first())
    }
}

fn apply_one<T>(v: &mut Vec<T>, d: ListDiff<T>)
    ensures
        final(v)@ == apply_diff(old(v)@, d.spec()),
{
    match d {
        ListDiff::Append { values } => {
            let mut values = values;
            v.append(&mut values);
        },
        ListDiff::Clear => {
            v.clear();
        },
        ListDiff::PushFront { value } => {
            v.insert(0, value);
            assert(v@ =~= seq![value] + old(v)@);
        },
        ListDiff::PushBack { value } => {
            v.push(value);
        },
        ListDiff::PopFront => {
            if v.len() > 0 {
                v.remove(0);
                assert(v@ =~= old(v)@.drop_first());
            }
        },
        ListDiff::PopBack => {
            v.pop();
        },
        ListDiff::Insert { index, value } => {
            let at = if index < v.len() { index } else { v.len() };
            v.insert(at, value);
        },
        ListDiff::Replace { index, value } => {
            if index < v.len() {
                v.remove(index);
                v.insert(index, value);
                assert(v@ =~= old(v)@.update(index as int, value));
            }
        },
        ListDiff::Remove { index } => {
            if index < v.len() {
                v.remove(index);
            }
        },
        ListDiff::Truncate { length } => {
            v.truncate(length);
        },
        ListDiff::Reset { values } => {
            *v = values;
        },
    }
}

/// Applies a batch of list changes in order.
pub fn apply_diffs<T>(vec: &mut Vec<T>, diffs: Vec<ListDiff<T>>)
    ensures
        final(vec)@ == apply_all(old(vec)@, diffs_spec(diffs@)),
{
    let ghost all = diffs_spec(diffs@);
    let mut diffs = diffs;
    let ghost mut done: int = 0;
    assert(all.subrange(0, all.len() as int) =~= all);
    while diffs.len() > 0
        invariant
            0 <= done <= all.len(),
            diffs@.len() == all.len() - done,
            forall|k: int| 0 <= k < diffs@.len() ==> #[trigger] diffs@[k].spec() == all[done + k],
            apply_all(old(vec)@, all) == apply_all(vec@, all.subrange(done, all.len() as int)),
        decreases diffs@.len(),
    {
        let d = diffs.remove(0);
        proof {
            let rest = all.subrange(done, all.len() as int);
            assert(d.spec() == all[done]);
            assert(rest[0] == all[done]);
            assert(rest.drop_first() =~= all.subrange(done + 1, all.len() as int));
        }
        apply_one(vec, d);
        proof {
            done = done + 1;
        }
    }
    assert(all.subrange(done, all.len() as int) =~= Seq::<DiffView<T>>::empty());
}

/// A change with every value it carries passed through `f`.
pub open spec fn map_diff<A, B>(d: DiffView<A>, f: spec_fn(A) -> B) -> DiffView<B> {
    match d {
        DiffView::Append(values) => DiffView::Append(values.map_values(f)),
        DiffView::Clear => DiffView::Clear,
        DiffView::PushFront(v) => DiffView::PushFront(f(v)),
        DiffView::PushBack(v) => DiffView::PushBack(f(v)),
        DiffView::PopFront => DiffView::PopFront,
        DiffView::PopBack => DiffView::PopBack,
        DiffView::Insert(i, v) => DiffView::Insert(i, f(v)),
        DiffView::Replace(i, v) => DiffView::Replace(i, f(v)),
        DiffView::Remove(i) => DiffView::Remove(i),
        DiffView::Truncate(n) => DiffView::Truncate(n),
        DiffView::Reset(values) => DiffView::Reset(values.map_values(f)),
    }
}

proof fn lemma_map_one<A, B>(s: Seq<A>, d: DiffView<A>, f: spec_fn(A) -> B)
    ensures
        apply_diff(s.map_values(f), map_diff(d, f)) == apply_diff(s, d).map_values(f),
{
    let l = apply_diff(s.map_values(f), map_diff(d, f));
    let r = apply_diff(s, d).map_values(f);
    match d {
        DiffView::Insert(i, v) => {
            let at = if i < s.len() { i as int } else { s.len() as int };
            assert(l =~= r);
        },
        _ => {
            assert(l =~= r);
        },
    }
}

/// Applying changes commutes with mapping the values: rows paired with
/// their mapped conversations stay aligned through any batch, because
/// changing the pairs and then projecting gives what changing the
/// projections would.
pub proof fn law_diffs_commute_with_map<A, B>(s: Seq<A>, ds: Seq<DiffView<A>>, f: spec_fn(A) -> B)
    ensures
        apply_all(s.map_values(f), ds.map_values(|d: DiffView<A>| map_diff(d, f)))
            == apply_all(s, ds).map_values(f),
    decreases ds.len(),
{
    let mds = ds.map_values(|d: DiffView<A>| map_diff(d, f));
    if ds.len() > 0 {
        lemma_map_one(s, ds[0], f);
        law_diffs_commute_with_map(apply_diff(s, ds[0]), ds.drop_first(), f);
        assert(mds.drop_first() =~= ds.drop_first().map_values(|d: DiffView<A>| map_diff(d, f)));
    }
}

// ----------------------------------------------------------------------
// Space grouping
// ----------------------------------------------------------------------

/// A space's children, each mapped to the space.
pub open spec fn children_map(sp: SpaceView) -> Map<Seq<char>, Seq<char>> {
    Map::new(|c: Seq<char>| sp.children.contains(c), |c: Seq<char>| sp.id)
}

/// Room id to the space it groups under: the first space, in list order,
/// that lists it. Rooms no space lists are absent (ungrouped).
pub open spec fn membership_spec(spaces: Seq<SpaceView>) -> Map<Seq<char>, Seq<char>>
    decreases spaces.len(),
{
    if spaces.len() == 0 {
        Map::empty()
    } else {
        children_map(spaces.last()).union_prefer_right(membership_spec(spaces.drop_last()))
    }
}

pub open spec fn string_view() -> spec_fn(String) -> Seq<char> {
    |s: String| s@
}

/// The grouping index of a space list: for each listed room id, the space
/// that claims it, first space wins.
pub fn space_membership(spaces: &Vec<Space>) -> (m: Vec<(String, String)>)
    ensures
        entries_distinct(m@),
        store_view(m@, string_view()) == membership_spec(spaces_view(spaces@)),
{
    let ghost sv = spaces_view(spaces@);
    let mut m: Vec<(String, String)> = Vec::new();
    assert(store_view(m@, string_view()) =~= membership_spec(sv.take(0)));
    for i in 0..spaces.len()
        invariant
            sv == spaces_view(spaces@),
            entries_distinct(m@),
            store_view(m@, string_view()) == membership_spec(sv.take(i as int)),
    {
        let sp = &spaces[i];
        let ghost before = store_view(m@, string_view());
        assert(sv.take(i + 1).drop_last() =~= sv.take(i as int));
        assert(sv.take(i + 1).last() == sp@);
        for j in 0..sp.children.len()
            invariant
                sv == spaces_view(spaces@),
                sp == spaces@[i as int],
                entries_distinct(m@),
                store_view(m@, string_view()) == Map::new(
                    |c: Seq<char>| sp@.children.take(j as int).contains(c),
                    |c: Seq<char>| sp@.id,
                ).union_prefer_right(before),
        {
            let child = &sp.children[j];
            let ghost cur = store_view(m@, string_view());
            let absent = find_entry(&m, child.as_str()).is_none();
            if absent {
                let entry = (child.duplicate(), sp.id.duplicate());
                proof {
                    lemma_store_push(m@, entry, string_view());
                }
                m.push(entry);
            }
            proof {
                let ch = sp@.children;
                assert(ch[j as int] == child@);
                let mj = Map::new(|c: Seq<char>| ch.take(j as int).contains(c), |c: Seq<char>| sp@.id);
                let mj1 = Map::new(|c: Seq<char>| ch.take(j + 1).contains(c), |c: Seq<char>| sp@.id);
                let target = mj1.union_prefer_right(before);
                let newm = store_view(m@, string_view());
                assert(cur == mj.union_prefer_right(before));
                assert forall|c: Seq<char>| ch.take(j + 1).contains(c) == (ch.take(j as int).contains(c) || c == child@) by {
                    if ch.take(j + 1).contains(c) {
                        let k = choose|k: int| 0 <= k < j + 1 && #[trigger] ch.take(j + 1)[k] == c;
                        if k < j {
                            assert(ch.take(j as int)[k] == c);
                        }
                    }
                    if ch.take(j as int).contains(c) {
                        let k = choose|k: int| 0 <= k < j && #[trigger] ch.take(j as int)[k] == c;
                        assert(ch.take(j + 1)[k] == c);
                    }
                    if c == child@ {
                        assert(ch.take(j + 1)[j as int] == c);
                    }
                }
                if absent {
                    assert(!cur.contains_key(child@));
                    assert(newm == cur.insert(child@, sp@.id));
                } else {
                    assert(cur.contains_key(child@));
                    assert(newm == cur);
                }
                assert forall|c: Seq<char>| #[trigger] target.contains_key(c) == newm.contains_key(c) by {}
                assert forall|c: Seq<char>| #[trigger] target.contains_key(c) implies target[c] == newm[c] by {
                    if before.contains_key(c) {
                    } else if c == child@ {
                    } else {
                    }
                }
                assert(newm =~= target);
            }
        }
        proof {
            assert(sp@.children.take(sp@.children.len() as int) =~= sp@.children);
            assert(store_view(m@, string_view()) =~= children_map(sp@).union_prefer_right(before));
        }
    }
    assert(sv.take(sv.len() as int) =~= sv);
    m
}

/// The space a room groups under, if a space lists it.
pub fn space_of(membership: &Vec<(String, String)>, room_id: &str) -> (r: Option<String>)
    requires
        entries_distinct(membership@),
    ensures
        r matches Some(s) ==> store_view(membership@, string_view()).contains_key(room_id@)
            && s@ == store_view(membership@, string_view())[room_id@],
        r is None ==> !store_view(membership@, string_view()).contains_key(room_id@),
{
    match find_entry(membership, room_id) {
        Some(i) => {
            proof {
                crate::store::lemma_entry_index(membership@, i as int);
            }
            Some(membership[i].1.duplicate())
        },
        None => None,
    }
}

/// The stand-in conversation paired with rows that are never shown
/// (spaces and invites).
pub fn placeholder_convo(id: &str) -> (c: Convo)
    ensures
        c.id@ == id@,
        c.kind == ConvoKind::Room,
        c.name@ == Seq::<char>::empty(),
        c.last@ == Seq::<char>::empty(),
        c.unread == 0,
        !c.encrypted,
        c.avatar is None,
        c.mxid is None,
        c.status is None,
        c.topic is None,
        c.space is None,
        c.members is None,
{
    Convo {
        id: owned(id),
        kind: ConvoKind::Room,
        name: String::new(),
        last: String::new(),
        unread: 0,
        encrypted: false,
        avatar: None,
        mxid: None,
        status: None,
        topic: None,
        space: None,
        members: None,
    }
}

// ----------------------------------------------------------------------
// Space summaries
// ----------------------------------------------------------------------

/// A space's child entry as its state event gives it: the child room id,
/// its optional `order` key, the event's time, and whether the entry lists
/// servers to join through (entries that do not are withdrawn).
#[derive(Debug, Clone, PartialEq, Eq)]
pub struct SpaceChild {
    pub room_id: String,
    pub order: Option<String>,
    pub ts: u64,
    pub has_via: bool,
}

impl Duplicate for SpaceChild {
    fn duplicate(&self) -> (r: SpaceChild) {
        SpaceChild { room_id: self.room_id.duplicate(), order: self.order.duplicate(), ts: self.ts, has_via: self.has_via }
    }
}

/// What a child entry is sorted by.
pub struct ChildKey {
    pub room_id: Seq<char>,
    pub order: Option<Seq<char>>,
    pub ts: u64,
}

pub open spec fn child_key(c: SpaceChild) -> ChildKey {
    ChildKey { room_id: c.room_id@, order: opt_view(c.order), ts: c.ts }
}

/// Child order: entries with an `order` key first, by that key; then by
/// the event's time; then by room id.
pub open spec fn key_lt(a: ChildKey, b: ChildKey) -> bool {
    match (a.order, b.order) {
        (Some(_), None) => true,
        (None, Some(_)) => false,
        (Some(x), Some(y)) if x != y => lex_lt(x, y),
        _ => if a.ts != b.ts {
            a.ts < b.ts
        } else {
            lex_lt(a.room_id, b.room_id)
        },
    }
}

/// The child order is a strict total order.
pub proof fn lemma_key_order(a: ChildKey, b: ChildKey, c: ChildKey)
    ensures
        !key_lt(a, a),
        !(key_lt(a, b) && key_lt(b, a)),
        a != b ==> key_lt(a, b) || key_lt(b, a),
        key_lt(a, b) && key_lt(b, c) ==> key_lt(a, c),
{
    lemma_lex_irrefl(a.room_id);
    lemma_lex_total(a.room_id, b.room_id);
    lemma_lex_total(b.room_id, c.room_id);
    lemma_lex_total(a.room_id, c.room_id);
    if a.room_id != b.room_id && b.room_id != c.room_id && lex_lt(a.room_id, b.room_id) && lex_lt(b.room_id, c.room_id) {
        lemma_lex_trans(a.room_id, b.room_id, c.room_id);
    }
    if let Some(x) = a.order {
        lemma_lex_irrefl(x);
        if let Some(y) = b.order {
            lemma_lex_total(x, y);
            if let Some(z) = c.order {
                lemma_lex_total(y, z);
                lemma_lex_total(x, z);
                if lex_lt(x, y) && lex_lt(y, z) {
                    lemma_lex_trans(x, y, z);
                }
            }
        }
    }
    if key_lt(a, b) && key_lt(b, c) {
        if a.order is Some && b.order is Some && c.order is Some {
            let (x, y, z) = (a.order->0, b.order->0, c.order->0);
            if x != y && y != z {
                lemma_lex_trans(x, y, z);
            }
            if x == y && y != z {
            }
            if x != y && y == z {
            }
            if x == y && y == z && a.ts == b.ts && b.ts == c.ts {
                lemma_lex_trans(a.room_id, b.room_id, c.room_id);
            }
        }
        if a.order is None && b.order is None && c.order is None && a.ts == b.ts && b.ts == c.ts {
            lemma_lex_trans(a.room_id, b.room_id, c.room_id);
        }
    }
    if a != b && !key_lt(a, b) && !key_lt(b, a) {
        assert(a.order == b.order);
        assert(a.ts == b.ts);
        assert(a.room_id == b.room_id);
    }
}

/// Keys in child order, equal keys side by side.
pub open spec fn keys_sorted(s: Seq<ChildKey>) -> bool {
    forall|i: int, j: int| 0 <= i < j < s.len() ==> !key_lt(#[trigger] s[j], #[trigger] s[i])
}

pub open spec fn has_via() -> spec_fn(SpaceChild) -> bool {
    |c: SpaceChild| c.has_via
}

pub open spec fn keys_of(s: Seq<SpaceChild>) -> Seq<ChildKey> {
    s.map_values(|c: SpaceChild| child_key(c))
}

fn key_less(a: &SpaceChild, b: &SpaceChild) -> (r: bool)
    ensures
        r == key_lt(child_key(*a), child_key(*b)),
{
    match (&a.order, &b.order) {
        (Some(_), None) => true,
        (None, Some(_)) => false,
        (Some(x), Some(y)) => {
            if !crate::text::str_eq(x.as_str(), y.as_str()) {
                lex_less(&chars_of(x.as_str()), &chars_of(y.as_str()))
            } else if a.ts != b.ts {
                a.ts < b.ts
            } else {
                lex_less(&chars_of(a.room_id.as_str()), &chars_of(b.room_id.as_str()))
            }
        },
        (None, None) => {
            if a.ts != b.ts {
                a.ts < b.ts
            } else {
                lex_less(&chars_of(a.room_id.as_str()), &chars_of(b.room_id.as_str()))
            }
        },
    }
}

/// The listed children of a space in child order: the entries that list
/// servers to join through, sorted.
pub fn sorted_children(children: &Vec<SpaceChild>) -> (r: Vec<SpaceChild>)
    ensures
        keys_of(r@).to_multiset() == keys_of(children@.filter(has_via())).to_multiset(),
        keys_sorted(keys_of(r@)),
        forall|k: int| 0 <= k < r@.len() ==> (#[trigger] r@[k]).has_via,
{
    let ghost pred = has_via();
    let mut out: Vec<SpaceChild> = Vec::new();
    proof {
        reveal(Seq::filter);
        assert(children@.take(0).filter(pred) =~= Seq::<SpaceChild>::empty());
        assert(keys_of(out@) =~= keys_of(children@.take(0).filter(pred)));
    }
    for i in 0..children.len()
        invariant
            pred == has_via(),
            keys_of(out@).to_multiset() == keys_of(children@.take(i as int).filter(pred)).to_multiset(),
            keys_sorted(keys_of(out@)),
            forall|k: int| 0 <= k < out@.len() ==> (#[trigger] out@[k]).has_via,
    {
        proof {
            assert(children@.take(i + 1).drop_last() =~= children@.take(i as int));
            reveal(Seq::filter);
        }
        let c = &children[i];
        if c.has_via {
            let mut p: usize = 0;
            while p < out.len() && !key_less(c, &out[p])
                invariant
                    p <= out@.len(),
                    forall|q: int| 0 <= q < p ==> !key_lt(child_key(*c), #[trigger] child_key(out@[q])),
                decreases out@.len() - p,
            {
                p = p + 1;
            }
            let ghost before = out@;
            let ghost kb = keys_of(before);
            let ghost kc = child_key(*c);
            out.insert(p, c.duplicate());
            proof {
                assert(keys_of(out@) =~= kb.insert(p as int, kc));
                vstd::seq_lib::to_multiset_insert(kb, p as int, kc);
                let filtered = children@.take(i + 1).filter(pred);
                assert(filtered =~= children@.take(i as int).filter(pred).push(*c));
                assert(keys_of(filtered) =~= keys_of(children@.take(i as int).filter(pred)).push(kc));
                vstd::seq_lib::to_multiset_build(keys_of(children@.take(i as int).filter(pred)), kc);
                let ko = keys_of(out@);
                assert forall|x: int, y: int| 0 <= x < y < ko.len() implies !key_lt(#[trigger] ko[y], #[trigger] ko[x]) by {
                    if x < p && y == p {
                        lemma_key_order(kc, kb[x], kb[x]);
                        assert(!key_lt(kc, kb[x]));
                    } else if x == p && y > p {
                        lemma_key_order(kb[p as int], kb[y - 1], kc);
                        lemma_key_order(kc, kb[p as int], kb[y - 1]);
                        lemma_key_order(kb[y - 1], kc, kb[y - 1]);
                        if y - 1 > p {
                            assert(!key_lt(kb[y - 1], kb[p as int]));
                            lemma_key_order(kb[y - 1], kb[p as int], kc);
                        }
                    } else if x < p && y > p {
                        assert(!key_lt(kb[y - 1], kb[x]));
                    } else if y < p {
                    } else {
                        assert(!key_lt(kb[y - 1], kb[x - 1]));
                    }
                }
            }
        } else {
            proof {
                assert(children@.take(i + 1).filter(pred) =~= children@.take(i as int).filter(pred));
            }
        }
    }
    assert(children@.take(children@.len() as int) =~= children@);
    out
}

/// A space's summary: its id, its name (`Unknown space` when it has none),
/// its avatar, its joined-member count (capped at `u32::MAX`), and the ids
/// of its listed children in child order.
pub fn space_from(
    id: &str,
    name: Option<&str>,
    avatar: Option<String>,
    joined_members: u64,
    children: &Vec<SpaceChild>,
) -> (s: Space)
    ensures
        s.id@ == id@,
        s.name@ == match name {
            Some(n) => n@,
            None => "Unknown space"@,
        },
        s.avatar == avatar,
        s.members == Some(if joined_members > u32::MAX { u32::MAX } else { joined_members as u32 }),
        exists|sorted: Seq<SpaceChild>|
            #![trigger keys_of(sorted)]
            keys_of(sorted).to_multiset() == keys_of(children@.filter(has_via())).to_multiset() && keys_sorted(keys_of(sorted))
                && strings_view(s.children@) == keys_of(sorted).map_values(|k: ChildKey| k.room_id),
{
    let sorted = sorted_children(children);
    let mut ids: Vec<String> = Vec::new();
    for k in 0..sorted.len()
        invariant
            ids@.len() == k,
            forall|q: int| 0 <= q < k ==> (#[trigger] ids@[q])@ == sorted@[q].room_id@,
    {
        ids.push(sorted[k].room_id.clone());
    }
    assert(strings_view(ids@) =~= keys_of(sorted@).map_values(|k: ChildKey| k.room_id));
    let members: u32 = if joined_members > 0xffff_ffff { 0xffff_ffff } else { joined_members as u32 };
    Space {
        id: owned(id),
        name: match name {
            Some(n) => owned(n),
            None => owned("Unknown space"),
        },
        avatar,
        members: Some(members),
        children: ids,
    }
}

// ----------------------------------------------------------------------
// Room rows
// ----------------------------------------------------------------------

/// A joined member of a room: its id and its own avatar.
#[derive(Debug, Clone, PartialEq, Eq)]
pub struct RoomMember {
    pub user_id: String,
    pub avatar: Option<String>,
}

/// What the room list knows of a room: its cached name, whether it is a
/// direct message, its notification count, encryption, avatar, topic,
/// joined-member count, and its joined members when they could be loaded.
#[derive(Debug, Clone, PartialEq, Eq)]
pub struct RoomSnapshot {
    pub room_id: String,
    pub name: Option<String>,
    pub is_direct: bool,
    pub notification_count: u64,
    pub encrypted: bool,
    pub avatar: Option<String>,
    pub topic: Option<String>,
    pub joined_members: u64,
    pub members: Option<Vec<RoomMember>>,
}

/// The counterpart of a direct message: the first joined member who is not
/// the signed-in user (any member when that user is unknown).
pub open spec fn counterpart(members: Seq<RoomMember>, own: Option<Seq<char>>) -> Option<RoomMember>
    decreases members.len(),
{
    if members.len() == 0 {
        None
    } else if own is None || members[0].user_id@ != own->0 {
        Some(members[0])
    } else {
        counterpart(members.drop_first(), own)
    }
}

/// A count capped at `u32::MAX`.
pub open spec fn cap_u32(n: u64) -> u32 {
    if n > u32::MAX { u32::MAX } else { n as u32 }
}

fn cap_u32_exec(n: u64) -> (r: u32)
    ensures
        r == cap_u32(n),
{
    if n > 0xffff_ffff { 0xffff_ffff } else { n as u32 }
}

pub open spec fn presence_of() -> spec_fn(Presence) -> Presence {
    |p: Presence| p
}

/// A direct message's `(mxid, status, avatar)`: its counterpart's id, live
/// presence and avatar (else the room's); nothing when the members could
/// not be loaded. Rooms keep only their own avatar.
pub open spec fn dm_fields(
    room: RoomSnapshot,
    own: Option<Seq<char>>,
    presence: Map<Seq<char>, Presence>,
) -> (Option<Seq<char>>, Option<Presence>, Option<Seq<char>>) {
    if room.is_direct {
        match room.members {
            Some(ms) => match counterpart(ms@, own) {
                Some(m) => (
                    Some(m.user_id@),
                    if presence.contains_key(m.user_id@) { Some(presence[m.user_id@]) } else { None },
                    match m.avatar {
                        Some(a) => Some(a@),
                        None => opt_view(room.avatar),
                    },
                ),
                None => (None, None, opt_view(room.avatar)),
            },
            None => (None, None, None),
        }
    } else {
        (None, None, opt_view(room.avatar))
    }
}

fn find_counterpart(members: &Vec<RoomMember>, own: Option<&str>) -> (r: Option<usize>)
    ensures
        match r {
            Some(k) => k < members@.len() && counterpart(members@, match own { Some(o) => Some(o@), None => None })
                == Some(members@[k as int]),
            None => counterpart(members@, match own { Some(o) => Some(o@), None => None }) is None,
        },
{
    let ghost ov: Option<Seq<char>> = match own { Some(o) => Some(o@), None => None };
    let mut k: usize = 0;
    assert(members@.subrange(0, members@.len() as int) =~= members@);
    while k < members.len()
        invariant
            k <= members@.len(),
            ov == (match own { Some(o) => Some(o@), None => None::<Seq<char>> }),
            counterpart(members@, ov) == counterpart(members@.subrange(k as int, members@.len() as int), ov),
        decreases members@.len() - k,
    {
        let ghost rest = members@.subrange(k as int, members@.len() as int);
        assert(rest[0] == members@[k as int]);
        let other = match own {
            Some(o) => !crate::text::str_eq(members[k].user_id.as_str(), o),
            None => true,
        };
        if other {
            return Some(k);
        }
        assert(rest.drop_first() =~= members@.subrange(k + 1, members@.len() as int));
        k = k + 1;
    }
    None
}

/// A room list row: named by its cached name (`Unknown room` without
/// one), with its notification count and member count (capped), its
/// encryption and topic, the space that groups it, and for direct messages
/// the counterpart's id, presence and avatar.
pub fn convo_from(
    room: &RoomSnapshot,
    own_id: Option<&str>,
    presence: &Vec<(String, Presence)>,
    membership: &Vec<(String, String)>,
) -> (c: Convo)
    requires
        entries_distinct(presence@),
        entries_distinct(membership@),
    ensures
        c.id@ == room.room_id@,
        c.kind == if room.is_direct { ConvoKind::Dm } else { ConvoKind::Room },
        c.name@ == match room.name {
            Some(n) => n@,
            None => "Unknown room"@,
        },
        c.last@.len() == 0,
        c.unread == cap_u32(room.notification_count),
        c.encrypted == room.encrypted,
        (opt_view(c.mxid), c.status, opt_view(c.avatar)) == dm_fields(
            *room,
            match own_id { Some(o) => Some(o@), None => None },
            store_view(presence@, presence_of()),
        ),
        c.topic == room.topic,
        opt_view(c.space) == (if store_view(membership@, string_view()).contains_key(room.room_id@) {
            Some(store_view(membership@, string_view())[room.room_id@])
        } else {
            None
        }),
        c.members == Some(cap_u32(room.joined_members)),
{
    let (mxid, status, avatar) = if room.is_direct {
        match &room.members {
            Some(ms) => match find_counterpart(ms, own_id) {
                Some(k) => {
                    let m = &ms[k];
                    let status = match find_entry(presence, m.user_id.as_str()) {
                        Some(i) => {
                            proof {
                                crate::store::lemma_entry_index(presence@, i as int);
                            }
                            Some(presence[i].1)
                        },
                        None => None,
                    };
                    let avatar = match &m.avatar {
                        Some(a) => Some(a.duplicate()),
                        None => room.avatar.duplicate(),
                    };
                    (Some(m.user_id.duplicate()), status, avatar)
                },
                None => (None, None, room.avatar.duplicate()),
            },
            None => (None, None, None),
        }
    } else {
        (None, None, room.avatar.duplicate())
    };
    let space = match find_entry(membership, room.room_id.as_str()) {
        Some(i) => {
            proof {
                crate::store::lemma_entry_index(membership@, i as int);
            }
            Some(membership[i].1.duplicate())
        },
        None => None,
    };
    Convo {
        id: room.room_id.duplicate(),
        kind: if room.is_direct { ConvoKind::Dm } else { ConvoKind::Room },
        name: match &room.name {
            Some(n) => n.duplicate(),
            None => owned("Unknown room"),
        },
        last: String::new(),
        unread: cap_u32_exec(room.notification_count),
        encrypted: room.encrypted,
        avatar,
        mxid,
        status,
        topic: room.topic.duplicate(),
        space,
        members: Some(cap_u32_exec(room.joined_members)),
    }
}

// ----------------------------------------------------------------------
// Pairing rows with conversations
// ----------------------------------------------------------------------

/// A room list row as the pairing step sees it, its mapping already done:
/// a space with its summary, a joined room with its conversation, or any
/// other room (invited, left).
pub enum RowKind {
    Space(Space),
    Joined(Convo),
    Other,
}

pub open spec fn space_of_view() -> spec_fn(Space) -> SpaceView {
    |s: Space| s@
}

/// Pairs a row with the conversation it publishes, keeping the cache of
/// joined spaces: a space enters the cache and pairs with an unnamed
/// placeholder; any other row leaves the cache (a room that stopped being a
/// space) and pairs with its conversation when joined, else with a
/// placeholder of its id.
pub fn pair_row(id: &str, kind: RowKind, space_cache: &mut Vec<(String, Space)>) -> (c: Convo)
    requires
        entries_distinct(old(space_cache)@),
    ensures
        entries_distinct(final(space_cache)@),
        match kind {
            RowKind::Space(s) => store_view(final(space_cache)@, space_of_view()) == store_view(
                old(space_cache)@,
                space_of_view(),
            ).insert(id@, s@) && c.id@.len() == 0 && c.name@.len() == 0,
            RowKind::Joined(cv) => store_view(final(space_cache)@, space_of_view()) == store_view(
                old(space_cache)@,
                space_of_view(),
            ).remove(id@) && c == cv,
            RowKind::Other => store_view(final(space_cache)@, space_of_view()) == store_view(
                old(space_cache)@,
                space_of_view(),
            ).remove(id@) && c.id@ == id@ && c.name@.len() == 0,
        },
{
    let ghost e = space_cache@;
    match kind {
        RowKind::Space(s) => {
            match find_entry(space_cache, id) {
                Some(i) => {
                    let (k, _) = space_cache.remove(i);
                    let ghost entry = (k, s);
                    space_cache.insert(i, (k, s));
                    proof {
                        assert(space_cache@ =~= e.update(i as int, entry));
                        crate::store::lemma_store_update(e, i as int, entry, space_of_view());
                    }
                },
                None => {
                    let entry = (owned(id), s);
                    proof {
                        lemma_store_push(e, entry, space_of_view());
                    }
                    space_cache.push(entry);
                },
            }
            proof {
                reveal_strlit("");
            }
            placeholder_convo("")
        },
        _ => {
            match find_entry(space_cache, id) {
                Some(i) => {
                    proof {
                        crate::store::lemma_store_remove(e, i as int, space_of_view());
                    }
                    space_cache.remove(i);
                },
                None => {
                    assert(store_view(e, space_of_view()) =~= store_view(e, space_of_view()).remove(id@));
                },
            }
            match kind {
                RowKind::Joined(cv) => cv,
                _ => placeholder_convo(id),
            }
        },
    }
}

/// Whether a paired row is published: a joined room that is not a space.
pub struct RowState {
    pub joined: bool,
    pub is_space: bool,
}

pub open spec fn published() -> spec_fn((RowState, Convo)) -> bool {
    |r: (RowState, Convo)| r.0.joined && !r.0.is_space
}

/// The conversations the room list publishes: those of joined rooms that
/// are not spaces, in row order.
pub fn visible_convos(rows: &Vec<(RowState, Convo)>) -> (r: Vec<Convo>)
    ensures
        r@ == rows@.filter(published()).map_values(|p: (RowState, Convo)| p.1),
{
    let ghost pred = published();
    let mut r: Vec<Convo> = Vec::new();
    for i in 0..rows.len()
        invariant
            pred == published(),
            r@ == rows@.take(i as int).filter(pred).map_values(|p: (RowState, Convo)| p.1),
    {
        proof {
            assert(rows@.take(i + 1).drop_last() =~= rows@.take(i as int));
            reveal(Seq::filter);
        }
        let ghost before = r@;
        if rows[i].0.joined && !rows[i].0.is_space {
            r.push(rows[i].1.duplicate());
            proof {
                let f = rows@.take(i + 1).filter(pred);
                assert(f =~= rows@.take(i as int).filter(pred).push(rows@[i as int]));
                assert(r@ =~= f.map_values(|p: (RowState, Convo)| p.1));
            }
        } else {
            proof {
                assert(rows@.take(i + 1).filter(pred) =~= rows@.take(i as int).filter(pred));
            }
        }
    }
    assert(rows@.take(rows@.len() as int) =~= rows@);
    r
}

} // verus!
