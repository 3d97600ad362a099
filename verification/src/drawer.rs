//! The navigation drawer's grouping: direct messages on top, then one
//! section per joined space with its rooms in the space's declared order,
//! then every room no joined space claims, so grouping never hides a room.

use vstd::prelude::*;

use crate::model::{opt_view, strings_view, Convo, Duplicate, Presence, Space, SpaceView};
use crate::store::{entries_distinct, find_entry, is_stable_order, lemma_entry_index, stable_order, store_view};

verus! {

pub open spec fn presence_view() -> spec_fn(Presence) -> Presence {
    |p: Presence| p
}

/// A direct message's status dot: live presence of its counterpart when
/// known, else the snapshot on the conversation, else offline.
pub open spec fn status_spec(mxid: Option<Seq<char>>, status: Option<Presence>, presence: Map<Seq<char>, Presence>) -> Presence {
    match mxid {
        Some(m) if presence.contains_key(m) => presence[m],
        _ => match status {
            Some(s) => s,
            None => Presence::Offline,
        },
    }
}

pub fn resolve_status(item: &Convo, presence: &Vec<(String, Presence)>) -> (p: Presence)
    requires
        entries_distinct(presence@),
    ensures
        p == status_spec(opt_view(item.mxid), item.status, store_view(presence@, presence_view())),
{
    if let Some(m) = &item.mxid {
        if let Some(i) = find_entry(presence, m.as_str()) {
            proof {
                lemma_entry_index(presence@, i as int);
            }
            return presence[i].1;
        }
    }
    match item.status {
        Some(s) => s,
        None => Presence::Offline,
    }
}

/// Where a child id sits in a space's list (its first place), or past the
/// end when the space does not list it.
pub open spec fn child_rank(children: Seq<Seq<char>>, id: Seq<char>) -> nat {
    if exists|i: int| 0 <= i < children.len() && children[i] == id {
        (choose|i: int| 0 <= i < children.len() && children[i] == id && forall|k: int| 0 <= k < i ==> children[k] != id) as nat
    } else {
        usize::MAX as nat
    }
}

fn child_rank_exec(children: &Vec<String>, id: &str) -> (r: usize)
    ensures
        r as nat == child_rank(strings_view(children@), id@),
{
    let ghost cs = strings_view(children@);
    for i in 0..children.len()
        invariant
            cs == strings_view(children@),
            forall|k: int| 0 <= k < i ==> cs[k] != id@,
    {
        if crate::text::str_eq(children[i].as_str(), id) {
            proof {
                assert(cs[i as int] == id@);
                assert forall|q: int| 0 <= q < cs.len() && cs[q] == id@ && (forall|k: int| 0 <= k < q ==> cs[k] != id@) implies q == i by {
                    if q > i {
                        assert(cs[i as int] != id@);
                    }
                }
            }
            return i;
        }
    }
    usize::MAX
}

/// The rooms of a space section: those grouped under the space, ordered
/// stably by their place in its child list (rooms it does not list last).
pub open spec fn in_space(space_id: Seq<char>) -> spec_fn(Convo) -> bool {
    |c: Convo| opt_view(c.space) == Some(space_id)
}

/// The sort keys of a section's rooms: their ranks in the child list.
pub open spec fn section_keys(children: Seq<Seq<char>>, grouped: Seq<Convo>) -> Seq<u128> {
    grouped.map_values(|c: Convo| child_rank(children, c.id@) as u128)
}

pub fn space_rooms(space: &Space, rooms: &Vec<Convo>) -> (r: Vec<Convo>)
    ensures
        ({
            let grouped = rooms@.filter(in_space(space.id@));
            &&& r@.len() == grouped.len()
            &&& exists|order: Seq<usize>| #[trigger] is_stable_order(
                section_keys(strings_view(space.children@), grouped),
                order,
            ) && forall|i: int| 0 <= i < r@.len() ==> #[trigger] r@[i] == grouped[order[i] as int]
        }),
{
    let ghost pred = in_space(space.id@);
    let mut grouped: Vec<Convo> = Vec::new();
    for i in 0..rooms.len()
        invariant
            pred == in_space(space.id@),
            grouped@ == rooms@.take(i as int).filter(pred),
    {
        proof {
            assert(rooms@.take(i + 1).drop_last() =~= rooms@.take(i as int));
            reveal(Seq::filter);
        }
        let keep = match &rooms[i].space {
            Some(s) => crate::text::str_eq(s.as_str(), space.id.as_str()),
            None => false,
        };
        if keep {
            grouped.push(rooms[i].duplicate());
        }
    }
    assert(rooms@.take(rooms@.len() as int) =~= rooms@);
    let ghost keys_spec = section_keys(strings_view(space.children@), grouped@);
    let mut keys: Vec<u128> = Vec::new();
    for i in 0..grouped.len()
        invariant
            keys@.len() == i,
            forall|k: int| 0 <= k < i ==> #[trigger] keys@[k] == child_rank(strings_view(space.children@), grouped@[k].id@) as u128,
    {
        let rank = child_rank_exec(&space.children, grouped[i].id.as_str());
        keys.push(rank as u128);
    }
    assert(keys@ =~= keys_spec);
    let order = stable_order(&keys);
    let mut r: Vec<Convo> = Vec::new();
    for i in 0..order.len()
        invariant
            is_stable_order(keys@, order@),
            keys@.len() == grouped@.len(),
            r@.len() == i,
            forall|k: int| 0 <= k < i ==> #[trigger] r@[k] == grouped@[order@[k] as int],
    {
        let at = order[i];
        r.push(grouped[at].duplicate());
    }
    assert(is_stable_order(keys_spec, order@));
    r
}

/// Whether some other space lists this one as a child (it still gets its
/// own section, marked nested).
pub open spec fn is_nested_spec(space: SpaceView, spaces: Seq<SpaceView>) -> bool {
    exists|i: int| 0 <= i < spaces.len() && spaces[i].id != space.id && #[trigger] spaces[i].children.contains(space.id)
}

pub fn is_nested(space: &Space, spaces: &Vec<Space>) -> (r: bool)
    ensures
        r == is_nested_spec(space@, crate::model::spaces_view(spaces@)),
{
    let ghost sv = crate::model::spaces_view(spaces@);
    for i in 0..spaces.len()
        invariant
            sv == crate::model::spaces_view(spaces@),
            forall|k: int| 0 <= k < i ==> !(sv[k].id != space@.id && #[trigger] sv[k].children.contains(space@.id)),
    {
        let o = &spaces[i];
        assert(sv[i as int] == o@);
        if !crate::text::str_eq(o.id.as_str(), space.id.as_str()) {
            let ghost cs = strings_view(o.children@);
            for j in 0..o.children.len()
                invariant
                    i < spaces@.len(),
                    sv == crate::model::spaces_view(spaces@),
                    sv[i as int] == o@,
                    o@.id != space@.id,
                    cs == strings_view(o.children@),
                    forall|k: int| 0 <= k < j ==> cs[k] != space@.id,
            {
                if crate::text::str_eq(o.children[j].as_str(), space.id.as_str()) {
                    assert(cs[j as int] == space@.id);
                    assert(sv[i as int].children.contains(space@.id));
                    assert(sv[i as int].id != space@.id);
                    assert(0 <= i < sv.len());
                    return true;
                }
            }
            assert(!cs.contains(space@.id));
        }
    }
    false
}

/// Whether a room is claimed by one of the joined spaces.
pub open spec fn claimed(c: Convo, spaces: Seq<SpaceView>) -> bool {
    match opt_view(c.space) {
        Some(s) => exists|i: int| 0 <= i < spaces.len() && #[trigger] spaces[i].id == s,
        None => false,
    }
}

pub open spec fn unclaimed(spaces: Seq<SpaceView>) -> spec_fn(Convo) -> bool {
    |c: Convo| !claimed(c, spaces)
}

fn claimed_exec(c: &Convo, spaces: &Vec<Space>) -> (r: bool)
    ensures
        r == claimed(*c, crate::model::spaces_view(spaces@)),
{
    let ghost sv = crate::model::spaces_view(spaces@);
    match &c.space {
        Some(s) => {
            assert(opt_view(c.space) == Some(s@));
            for k in 0..spaces.len()
                invariant
                    opt_view(c.space) == Some(s@),
                    sv == crate::model::spaces_view(spaces@),
                    forall|q: int| 0 <= q < k ==> #[trigger] sv[q].id != s@,
            {
                assert(sv[k as int].id == spaces@[k as int].id@);
                if crate::text::str_eq(spaces[k].id.as_str(), s.as_str()) {
                    assert(sv[k as int].id == s@);
                    assert(0 <= k < sv.len());
                    assert(opt_view(c.space) == Some(s@));
                    return true;
                }
            }
            false
        },
        None => false,
    }
}

/// The rooms of the flat bucket: those no joined space claims, in order.
pub fn ungrouped(rooms: &Vec<Convo>, spaces: &Vec<Space>) -> (r: Vec<Convo>)
    ensures
        r@ == rooms@.filter(unclaimed(crate::model::spaces_view(spaces@))),
{
    let ghost sv = crate::model::spaces_view(spaces@);
    let ghost pred = unclaimed(sv);
    let mut r: Vec<Convo> = Vec::new();
    for i in 0..rooms.len()
        invariant
            sv == crate::model::spaces_view(spaces@),
            pred == unclaimed(sv),
            r@ == rooms@.take(i as int).filter(pred),
    {
        proof {
            assert(rooms@.take(i + 1).drop_last() =~= rooms@.take(i as int));
            reveal(Seq::filter);
        }
        let c = &rooms[i];
        let is_claimed = claimed_exec(c, spaces);
        if !is_claimed {
            r.push(c.duplicate());
        }
    }
    assert(rooms@.take(rooms@.len() as int) =~= rooms@);
    r
}

/// Grouping never hides a room: a room is either in the flat bucket or
/// grouped under a joined space whose section lists it.
pub proof fn law_grouping_hides_no_room(rooms: Seq<Convo>, spaces: Seq<SpaceView>, i: int)
    requires
        0 <= i < rooms.len(),
    ensures
        rooms.filter(unclaimed(spaces)).contains(rooms[i]) || exists|k: int| 0 <= k < spaces.len()
            && #[trigger] rooms.filter(in_space(spaces[k].id)).contains(rooms[i]),
{
    if claimed(rooms[i], spaces) {
        let s = opt_view(rooms[i].space)->0;
        let k = choose|k: int| 0 <= k < spaces.len() && #[trigger] spaces[k].id == s;
        rooms.lemma_filter_contains(in_space(spaces[k].id), i);
    } else {
        rooms.lemma_filter_contains(unclaimed(spaces), i);
    }
}

/// Whether a section shows collapsed: a section never toggled is expanded.
pub open spec fn is_collapsed(flags: Map<Seq<char>, bool>, id: Seq<char>) -> bool {
    flags.contains_key(id) && flags[id]
}

/// The flags after one toggle of the section `id`.
pub open spec fn toggled(flags: Map<Seq<char>, bool>, id: Seq<char>) -> Map<Seq<char>, bool> {
    flags.insert(id, !is_collapsed(flags, id))
}

/// Flips a section's collapsed flag; a section never toggled counts as
/// expanded, so its first toggle collapses it.
pub fn toggle_collapsed(collapsed: &mut Vec<(String, bool)>, id: &str)
    requires
        entries_distinct(old(collapsed)@),
    ensures
        entries_distinct(final(collapsed)@),
        store_view(final(collapsed)@, |b: bool| b) == toggled(store_view(old(collapsed)@, |b: bool| b), id@),
{
    let ghost e = collapsed@;
    match find_entry(collapsed, id) {
        Some(i) => {
            proof {
                lemma_entry_index(e, i as int);
            }
            let (k, v) = collapsed.remove(i);
            let ghost entry = (k, !v);
            collapsed.insert(i, (k, !v));
            proof {
                assert(collapsed@ =~= e.update(i as int, entry));
                crate::store::lemma_store_update(e, i as int, entry, |b: bool| b);
            }
        },
        None => {
            let entry = (crate::text::owned(id), true);
            proof {
                crate::store::lemma_store_push(e, entry, |b: bool| b);
            }
            collapsed.push(entry);
        },
    }
}

/// Toggling a section twice leaves every section, that one included, shown
/// as it was; toggling one section changes no other.
pub proof fn law_toggle_twice_restores(flags: Map<Seq<char>, bool>, id: Seq<char>, other: Seq<char>)
    ensures
        is_collapsed(toggled(toggled(flags, id), id), other) == is_collapsed(flags, other),
        other != id ==> is_collapsed(toggled(flags, id), other) == is_collapsed(flags, other),
        is_collapsed(toggled(flags, id), id) == !is_collapsed(flags, id),
{
}

} // verus!
