use vesper::design::{badge_label, initials, status_color};
use vesper::model::Presence;

#[test]
fn initials_take_the_first_two_words() {
    assert_eq!(initials("ann lee smith"), "AL");
    assert_eq!(initials("  mira  "), "M");
    assert_eq!(initials(""), "");
    assert_eq!(initials("\u{e9}lodie\tfur"), "\u{c9}F");
}

#[test]
fn badges_cap_their_count() {
    assert_eq!(badge_label(0, 99, false), None);
    assert_eq!(badge_label(5, 99, true), None);
    assert_eq!(badge_label(5, 99, false).as_deref(), Some("5"));
    assert_eq!(badge_label(120, 99, false).as_deref(), Some("99+"));
    assert_eq!(badge_label(3, -2, false).as_deref(), Some("-2+"));
}

#[test]
fn presence_dots_have_a_colour_each() {
    assert_eq!(status_color(Presence::Online), "var(--status-online)");
    assert_eq!(status_color(Presence::Away), "var(--status-away)");
    assert_eq!(status_color(Presence::Offline), "var(--status-offline)");
}
