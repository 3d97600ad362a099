use vesper::drawer::{is_nested, resolve_status, space_rooms, toggle_collapsed, ungrouped};
use vesper::mock::{dm, room};
use vesper::model::{Presence, Space};

fn space(id: &str, children: &[&str]) -> Space {
    Space {
        id: id.to_string(),
        name: id.to_string(),
        avatar: None,
        members: None,
        children: children.iter().map(|c| c.to_string()).collect(),
    }
}

#[test]
fn live_presence_beats_the_snapshot() {
    let c = dm("!d:x", "Ann", "@ann:x", Presence::Away, "hi", 0);
    assert_eq!(resolve_status(&c, &vec![("@ann:x".to_string(), Presence::Online)]), Presence::Online);
    assert_eq!(resolve_status(&c, &vec![("@bob:x".to_string(), Presence::Online)]), Presence::Away);
    let r = room("!r:x", "!s:x", "General", "", 3, "", 0, false);
    assert_eq!(resolve_status(&r, &Vec::new()), Presence::Offline);
}

#[test]
fn space_sections_follow_the_declared_child_order() {
    let rooms = vec![
        room("!a:x", "!s:x", "A", "", 1, "", 0, false),
        room("!b:x", "!s:x", "B", "", 1, "", 0, false),
        room("!c:x", "!t:x", "C", "", 1, "", 0, false),
        room("!d:x", "!s:x", "D", "", 1, "", 0, false),
    ];
    let s = space("!s:x", &["!b:x", "!a:x"]);
    let ids: Vec<String> = space_rooms(&s, &rooms).into_iter().map(|c| c.id).collect();
    assert_eq!(ids, vec!["!b:x", "!a:x", "!d:x"]);
}

#[test]
fn unclaimed_rooms_land_in_the_flat_bucket() {
    let rooms = vec![
        room("!a:x", "!s:x", "A", "", 1, "", 0, false),
        room("!c:x", "!gone:x", "C", "", 1, "", 0, false),
        dm("!d:x", "Ann", "@ann:x", Presence::Online, "", 0),
    ];
    let spaces = vec![space("!s:x", &["!a:x"])];
    let ids: Vec<String> = ungrouped(&rooms, &spaces).into_iter().map(|c| c.id).collect();
    assert_eq!(ids, vec!["!c:x", "!d:x"]);
}

#[test]
fn nested_spaces_are_detected() {
    let outer = space("!o:x", &["!i:x"]);
    let inner = space("!i:x", &[]);
    let spaces = vec![outer.clone(), inner.clone()];
    assert!(is_nested(&inner, &spaces));
    assert!(!is_nested(&outer, &spaces));
    let selfish = space("!self:x", &["!self:x"]);
    assert!(!is_nested(&selfish, &vec![selfish.clone()]));
}

#[test]
fn first_toggle_collapses_and_second_expands() {
    let mut collapsed: Vec<(String, bool)> = Vec::new();
    toggle_collapsed(&mut collapsed, "!s:x");
    assert_eq!(collapsed, vec![("!s:x".to_string(), true)]);
    toggle_collapsed(&mut collapsed, "!s:x");
    assert_eq!(collapsed, vec![("!s:x".to_string(), false)]);
}

#[test]
fn toggling_twice_restores_and_spares_other_sections() {
    let mut collapsed: Vec<(String, bool)> = Vec::new();
    toggle_collapsed(&mut collapsed, "!b:x");
    toggle_collapsed(&mut collapsed, "!a:x");
    toggle_collapsed(&mut collapsed, "!a:x");
    assert_eq!(
        collapsed,
        vec![("!b:x".to_string(), true), ("!a:x".to_string(), false)]
    );
}
