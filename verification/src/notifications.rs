//! Notification toggles and the Matrix push rules behind them.
//!
//! The settings screen shows a handful of friendly toggles; the server stores
//! push rules. One toggle may stand for several rules ("direct messages"
//! covers the plain and the encrypted one-to-one rule), so the mapping is a
//! table. A toggle reads enabled when every rule behind it is enabled, and
//! setting it writes all of them.

use vstd::prelude::*;

use crate::model::NotifToggle;
use crate::text::owned;

verus! {

/// The push-rule kinds the table refers to.
#[derive(Debug, Clone, Copy, PartialEq, Eq, Hash, Structural)]
pub enum RuleKind {
    Override,
    Underride,
}

/// One push rule referenced by a toggle.
#[derive(Debug, Clone, Copy, PartialEq, Eq)]
pub struct RuleRef {
    pub kind: RuleKind,
    /// Canonical rule id, e.g. `.m.rule.master`.
    pub rule_id: &'static str,
}

/// One settings toggle and the rules behind it.
#[derive(Debug, Clone, PartialEq, Eq)]
pub struct ToggleDef {
    /// Stable key of the toggle (`NotifToggle::id`).
    pub id: &'static str,
    pub label: &'static str,
    pub rules: Vec<RuleRef>,
    /// State of a toggle whose rules the server has not reported.
    pub default: bool,
}

/// A toggle as plain values: id, label, rules and default.
pub struct ToggleSpec {
    pub id: Seq<char>,
    pub label: Seq<char>,
    pub rules: Seq<(RuleKind, Seq<char>)>,
    pub default: bool,
}

impl RuleRef {
    pub open spec fn view_pair(self) -> (RuleKind, Seq<char>) {
        (self.kind, self.rule_id@)
    }
}

impl ToggleDef {
    pub open spec fn spec(self) -> ToggleSpec {
        ToggleSpec {
            id: self.id@,
            label: self.label@,
            rules: self.rules@.map_values(|r: RuleRef| r.view_pair()),
            default: self.default,
        }
    }
}

pub open spec fn master_id() -> Seq<char> { ".m.rule.master"@ }
pub open spec fn display_name_id() -> Seq<char> { ".m.rule.contains_display_name"@ }
pub open spec fn one_to_one_id() -> Seq<char> { ".m.rule.room_one_to_one"@ }
pub open spec fn encrypted_one_to_one_id() -> Seq<char> { ".m.rule.encrypted_room_one_to_one"@ }
pub open spec fn encrypted_id() -> Seq<char> { ".m.rule.encrypted"@ }

/// The whole table: master mute, mentions, direct messages, encrypted rooms.
pub open spec fn rule_table_spec() -> Seq<ToggleSpec> {
    seq![
        ToggleSpec {
            id: "master"@,
            label: "Mute all notifications"@,
            rules: seq![(RuleKind::Override, master_id())],
            default: false,
        },
        ToggleSpec {
            id: "mentions"@,
            label: "Mentions of my display name"@,
            rules: seq![(RuleKind::Override, display_name_id())],
            default: true,
        },
        ToggleSpec {
            id: "dms"@,
            label: "Direct messages"@,
            rules: seq![
                (RuleKind::Underride, one_to_one_id()),
                (RuleKind::Underride, encrypted_one_to_one_id()),
            ],
            default: true,
        },
        ToggleSpec {
            id: "encrypted_rooms"@,
            label: "Encrypted rooms"@,
            rules: seq![(RuleKind::Underride, encrypted_id())],
            default: true,
        },
    ]
}

/// The toggle table, in display order.
pub fn rule_table() -> (t: Vec<ToggleDef>)
    ensures
        t@.len() == rule_table_spec().len(),
        forall|i: int| 0 <= i < t@.len() ==> #[trigger] t@[i].spec() == rule_table_spec()[i],
{
    let master = RuleRef { kind: RuleKind::Override, rule_id: ".m.rule.master" };
    let mentions = RuleRef { kind: RuleKind::Override, rule_id: ".m.rule.contains_display_name" };
    let plain = RuleRef { kind: RuleKind::Underride, rule_id: ".m.rule.room_one_to_one" };
    let e2e = RuleRef { kind: RuleKind::Underride, rule_id: ".m.rule.encrypted_room_one_to_one" };
    let enc = RuleRef { kind: RuleKind::Underride, rule_id: ".m.rule.encrypted" };
    let t = vec![
        ToggleDef {
            id: "master",
            label: "Mute all notifications",
            rules: vec![master],
            default: false,
        },
        ToggleDef {
            id: "mentions",
            label: "Mentions of my display name",
            rules: vec![mentions],
            default: true,
        },
        ToggleDef {
            id: "dms",
            label: "Direct messages",
            rules: vec![plain, e2e],
            default: true,
        },
        ToggleDef {
            id: "encrypted_rooms",
            label: "Encrypted rooms",
            rules: vec![enc],
            default: true,
        },
    ];
    proof {
        assert(t@[0].rules@.map_values(|r: RuleRef| r.view_pair()) =~= rule_table_spec()[0].rules);
        assert(t@[1].rules@.map_values(|r: RuleRef| r.view_pair()) =~= rule_table_spec()[1].rules);
        assert(t@[2].rules@.map_values(|r: RuleRef| r.view_pair()) =~= rule_table_spec()[2].rules);
        assert(t@[3].rules@.map_values(|r: RuleRef| r.view_pair()) =~= rule_table_spec()[3].rules);
    }
    t
}


/// Whether the table has a toggle keyed `id`.
pub open spec fn has_toggle(id: Seq<char>) -> bool {
    exists|i: int| 0 <= i < rule_table_spec().len() && #[trigger] rule_table_spec()[i].id == id
}

/// Looks a toggle up by its key; `None` for keys the table does not have.
pub fn toggle_def(id: &str) -> (r: Option<ToggleDef>)
    ensures
        r is Some <==> has_toggle(id@),
        r matches Some(d) ==> exists|i: int|
            0 <= i < rule_table_spec().len() && #[trigger] rule_table_spec()[i] == d.spec()
                && d.spec().id == id@,
{
    let mut t = rule_table();
    let n = t.len();
    let mut i: usize = 0;
    while i < n
        invariant
            n == t@.len() == rule_table_spec().len(),
            0 <= i <= n,
            forall|k: int| 0 <= k < n ==> #[trigger] t@[k].spec() == rule_table_spec()[k],
            forall|k: int| 0 <= k < i ==> rule_table_spec()[k].id != id@,
        decreases n - i,
    {
        assert(t@[i as int].spec() == rule_table_spec()[i as int]);
        if crate::text::str_eq(t[i].id, id) {
            let d = t.remove(i);
            assert(rule_table_spec()[i as int] == d.spec());
            assert(rule_table_spec()[i as int].id == id@);
            return Some(d);
        }
        i = i + 1;
    }
    None
}

/// The table's toggles at their defaults: the seed of an offline store, and
/// what is shown before the server has reported its rules.
pub fn default_toggles() -> (r: Vec<NotifToggle>)
    ensures
        r@.len() == rule_table_spec().len(),
        forall|i: int| #![trigger r@[i]] 0 <= i < r@.len() ==> {
            &&& r@[i].id@ == rule_table_spec()[i].id
            &&& r@[i].label@ == rule_table_spec()[i].label
            &&& r@[i].enabled == rule_table_spec()[i].default
        },
{
    let t = rule_table();
    let mut r: Vec<NotifToggle> = Vec::new();
    for i in 0..t.len()
        invariant
            t@.len() == rule_table_spec().len(),
            forall|k: int| 0 <= k < t@.len() ==> #[trigger] t@[k].spec() == rule_table_spec()[k],
            r@.len() == i,
            forall|k: int| #![trigger r@[k]] 0 <= k < i ==> {
                &&& r@[k].id@ == rule_table_spec()[k].id
                &&& r@[k].label@ == rule_table_spec()[k].label
                &&& r@[k].enabled == rule_table_spec()[k].default
            },
    {
        let d = &t[i];
        assert(d.spec() == rule_table_spec()[i as int]);
        r.push(NotifToggle { id: owned(d.id), label: owned(d.label), enabled: d.default });
    }
    r
}

/// What a toggle reads as, given what the server answered for its rules in
/// order (`Some(enabled)`, or `None` where the lookup failed): any disabled
/// rule disables it, a failed lookup falls back to the default, and nothing
/// after the first disabled or failed rule counts.
pub open spec fn toggle_enabled_from(cur: bool, default: bool, states: Seq<Option<bool>>) -> bool
    decreases states.len(),
{
    if states.len() == 0 {
        cur
    } else {
        match states[0] {
            Some(true) => toggle_enabled_from(true, default, states.drop_first()),
            Some(false) => false,
            None => default,
        }
    }
}

pub open spec fn toggle_enabled(default: bool, states: Seq<Option<bool>>) -> bool {
    toggle_enabled_from(default, default, states)
}

fn toggle_enabled_exec(default: bool, states: &Vec<Option<bool>>) -> (r: bool)
    ensures
        r == toggle_enabled(default, states@),
{
    let mut enabled = default;
    let mut j: usize = 0;
    assert(states@.subrange(0, states@.len() as int) =~= states@);
    while j < states.len()
        invariant
            0 <= j <= states@.len(),
            toggle_enabled(default, states@) == toggle_enabled_from(
                enabled,
                default,
                states@.subrange(j as int, states@.len() as int),
            ),
        decreases states@.len() - j,
    {
        let ghost rest = states@.subrange(j as int, states@.len() as int);
        assert(rest.drop_first() =~= states@.subrange(j + 1, states@.len() as int));
        match states[j] {
            Some(true) => {
                enabled = true;
            },
            Some(false) => {
                return false;
            },
            None => {
                return default;
            },
        }
        j = j + 1;
    }
    enabled
}

/// The toggles as the server's rule states make them read, `states[i]`
/// holding the answers for the rules of the table's `i`-th toggle.
pub fn toggles_from_rule_states(states: &Vec<Vec<Option<bool>>>) -> (r: Vec<NotifToggle>)
    requires
        states@.len() == rule_table_spec().len(),
    ensures
        r@.len() == rule_table_spec().len(),
        forall|i: int| #![trigger r@[i]] 0 <= i < r@.len() ==> {
            &&& r@[i].id@ == rule_table_spec()[i].id
            &&& r@[i].label@ == rule_table_spec()[i].label
            &&& r@[i].enabled == toggle_enabled(rule_table_spec()[i].default, states@[i]@)
        },
{
    let t = rule_table();
    let mut r: Vec<NotifToggle> = Vec::new();
    for i in 0..t.len()
        invariant
            t@.len() == rule_table_spec().len() == states@.len(),
            forall|k: int| 0 <= k < t@.len() ==> #[trigger] t@[k].spec() == rule_table_spec()[k],
            r@.len() == i,
            forall|k: int| #![trigger r@[k]] 0 <= k < i ==> {
                &&& r@[k].id@ == rule_table_spec()[k].id
                &&& r@[k].label@ == rule_table_spec()[k].label
                &&& r@[k].enabled == toggle_enabled(rule_table_spec()[k].default, states@[k]@)
            },
    {
        let d = &t[i];
        assert(d.spec() == rule_table_spec()[i as int]);
        let enabled = toggle_enabled_exec(d.default, &states[i]);
        r.push(NotifToggle { id: owned(d.id), label: owned(d.label), enabled });
    }
    r
}

/// No two toggles share a key.
pub proof fn law_toggle_ids_unique()
    ensures
        forall|i: int, j: int|
            0 <= i < j < rule_table_spec().len() ==> rule_table_spec()[i].id
                != rule_table_spec()[j].id,
{
    reveal_strlit("master");
    reveal_strlit("mentions");
    reveal_strlit("dms");
    reveal_strlit("encrypted_rooms");
    reveal_strlit(".m.rule.master");
    reveal_strlit(".m.rule.contains_display_name");
    reveal_strlit(".m.rule.room_one_to_one");
    reveal_strlit(".m.rule.encrypted_room_one_to_one");
    reveal_strlit(".m.rule.encrypted");
    reveal_strlit(".m.rule.");
    let t = rule_table_spec();
    assert(t[0].id[0] != t[2].id[0]);
    assert(t[0].id[1] != t[1].id[1]);
    assert(t[1].id[0] != t[2].id[0]);
    assert(t[0].id.len() != t[3].id.len());
    assert(t[1].id.len() != t[3].id.len());
    assert(t[2].id.len() != t[3].id.len());
}

/// Every toggle stands for at least one rule, and every rule id is a
/// canonical `.m.rule.` id.
pub proof fn law_toggles_map_to_canonical_rules()
    ensures
        forall|i: int| 0 <= i < rule_table_spec().len() ==> #[trigger] rule_table_spec()[i].rules.len() > 0,
        forall|i: int, k: int|
            0 <= i < rule_table_spec().len() && 0 <= k < rule_table_spec()[i].rules.len()
                ==> crate::text::has_prefix(#[trigger] rule_table_spec()[i].rules[k].1, ".m.rule."@),
{
    reveal_strlit("master");
    reveal_strlit("mentions");
    reveal_strlit("dms");
    reveal_strlit("encrypted_rooms");
    reveal_strlit(".m.rule.master");
    reveal_strlit(".m.rule.contains_display_name");
    reveal_strlit(".m.rule.room_one_to_one");
    reveal_strlit(".m.rule.encrypted_room_one_to_one");
    reveal_strlit(".m.rule.encrypted");
    reveal_strlit(".m.rule.");
    let p = ".m.rule."@;
    assert(master_id().subrange(0, 8) =~= p);
    assert(display_name_id().subrange(0, 8) =~= p);
    assert(one_to_one_id().subrange(0, 8) =~= p);
    assert(encrypted_one_to_one_id().subrange(0, 8) =~= p);
    assert(encrypted_id().subrange(0, 8) =~= p);
}

/// No push rule is written by two different toggles, nor listed twice by one.
pub proof fn law_no_rule_double_booked()
    ensures
        forall|i: int, a: int, j: int, b: int|
            0 <= i < rule_table_spec().len() && 0 <= j < rule_table_spec().len()
                && 0 <= a < rule_table_spec()[i].rules.len()
                && 0 <= b < rule_table_spec()[j].rules.len() && (i != j || a != b)
                ==> #[trigger] rule_table_spec()[i].rules[a] != #[trigger] rule_table_spec()[j].rules[b],
{
    reveal_strlit("master");
    reveal_strlit("mentions");
    reveal_strlit("dms");
    reveal_strlit("encrypted_rooms");
    reveal_strlit(".m.rule.master");
    reveal_strlit(".m.rule.contains_display_name");
    reveal_strlit(".m.rule.room_one_to_one");
    reveal_strlit(".m.rule.encrypted_room_one_to_one");
    reveal_strlit(".m.rule.encrypted");
    reveal_strlit(".m.rule.");
    assert(master_id().len() == 14);
    assert(display_name_id().len() == 29);
    assert(one_to_one_id().len() == 23);
    assert(encrypted_one_to_one_id().len() == 33);
    assert(encrypted_id().len() == 17);
}

/// Toggles looked up by two different keys (see [`toggle_def`]) never
/// share a push rule; each stands for at least one rule, and every rule id
/// is a canonical `.m.rule.` id.
pub proof fn law_lookups_share_no_rule(a: ToggleSpec, b: ToggleSpec)
    requires
        exists|i: int| 0 <= i < rule_table_spec().len() && #[trigger] rule_table_spec()[i] == a,
        exists|j: int| 0 <= j < rule_table_spec().len() && #[trigger] rule_table_spec()[j] == b,
        a.id != b.id,
    ensures
        a.rules.len() > 0,
        forall|k: int| 0 <= k < a.rules.len() ==> crate::text::has_prefix(#[trigger] a.rules[k].1, ".m.rule."@),
        forall|x: int, y: int| 0 <= x < a.rules.len() && 0 <= y < b.rules.len() ==> #[trigger] a.rules[x] != #[trigger] b.rules[y],
{
    let i = choose|i: int| 0 <= i < rule_table_spec().len() && #[trigger] rule_table_spec()[i] == a;
    let j = choose|j: int| 0 <= j < rule_table_spec().len() && #[trigger] rule_table_spec()[j] == b;
    law_toggles_map_to_canonical_rules();
    law_no_rule_double_booked();
    assert(i != j);
    assert forall|k: int| 0 <= k < a.rules.len() implies crate::text::has_prefix(#[trigger] a.rules[k].1, ".m.rule."@) by {
        assert(rule_table_spec()[i].rules[k] == a.rules[k]);
    }
    assert forall|x: int, y: int| 0 <= x < a.rules.len() && 0 <= y < b.rules.len() implies #[trigger] a.rules[x] != #[trigger] b.rules[y] by {
        assert(rule_table_spec()[i].rules[x] != rule_table_spec()[j].rules[y]);
    }
}

} // verus!
