use std::collections::HashSet;
use vesper::notifications::{default_toggles, rule_table, toggle_def, toggles_from_rule_states};

#[test]
fn toggle_ids_are_unique_and_stable() {
    let table = rule_table();
    let ids: HashSet<_> = table.iter().map(|t| t.id).collect();
    assert_eq!(ids.len(), table.len(), "duplicate toggle ids");
    for id in ["master", "mentions", "dms", "encrypted_rooms"] {
        assert!(toggle_def(id).is_some(), "missing toggle {id}");
    }
}

#[test]
fn every_toggle_maps_to_at_least_one_rule() {
    for t in rule_table() {
        assert!(!t.rules.is_empty(), "{} has no rules", t.id);
        for r in &t.rules {
            assert!(r.rule_id.starts_with(".m.rule."), "non-canonical {}", r.rule_id);
        }
    }
}

#[test]
fn dms_spans_plain_and_encrypted_one_to_one() {
    let dms = toggle_def("dms").expect("dms");
    let ids: Vec<_> = dms.rules.iter().map(|r| r.rule_id).collect();
    assert!(ids.contains(&".m.rule.room_one_to_one"));
    assert!(ids.contains(&".m.rule.encrypted_room_one_to_one"));
    assert_eq!(dms.rules.len(), 2);
}

#[test]
fn no_rule_is_claimed_by_two_toggles() {
    let mut seen = HashSet::new();
    for t in rule_table() {
        for r in &t.rules {
            assert!(seen.insert((r.kind, r.rule_id)), "{} double-booked", r.rule_id);
        }
    }
}

#[test]
fn default_toggles_cover_the_whole_table() {
    let defaults = default_toggles();
    assert_eq!(defaults.len(), rule_table().len());
    let master = defaults.iter().find(|t| t.id == "master").unwrap();
    assert!(!master.enabled, "fresh accounts are not muted by default");
    assert!(defaults.iter().find(|t| t.id == "dms").unwrap().enabled);
}

#[test]
fn unknown_toggle_lookup_is_none() {
    assert!(toggle_def("nope").is_none());
}

#[test]
fn toggle_reads_enabled_only_when_every_rule_is() {
    let states = vec![
        vec![Some(true)],
        vec![Some(false)],
        vec![Some(true), Some(false)],
        vec![None],
    ];
    let toggles = toggles_from_rule_states(&states);
    assert_eq!(toggles.len(), 4);
    assert!(toggles[0].enabled);
    assert!(!toggles[1].enabled);
    assert!(!toggles[2].enabled, "one disabled rule disables the toggle");
    assert!(toggles[3].enabled, "a failed lookup falls back to the default");
    assert_eq!(toggles[2].id, "dms");
    assert_eq!(toggles[2].label, "Direct messages");
}

#[test]
fn first_disabled_rule_wins_over_later_ones() {
    let states = vec![vec![None], vec![Some(false)], vec![Some(false), Some(true)], vec![]];
    let toggles = toggles_from_rule_states(&states);
    assert!(!toggles[0].enabled, "master defaults to disabled");
    assert!(!toggles[2].enabled);
    assert!(toggles[3].enabled, "no answers keep the default");
}
