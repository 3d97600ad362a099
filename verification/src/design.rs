//! The design system's small decisions: an avatar's initials, a badge's
//! label, and a presence dot's colour.

use vstd::prelude::*;

use crate::model::Presence;
use crate::text::{dec, is_white, is_white_exec, push_dec, push_str, string_from_chars};

verus! {

/// The first characters of the words of `s` (words are separated by
/// whitespace).
pub open spec fn word_starts(s: Seq<char>) -> Seq<char>
    decreases s.len(),
{
    if s.len() == 0 {
        Seq::empty()
    } else {
        let k = s.len() - 1;
        let head = word_starts(s.drop_last());
        if !is_white(s[k]) && (k == 0 || is_white(s[k - 1])) {
            head.push(s[k])
        } else {
            head
        }
    }
}

/// At most the first two elements of a sequence.
pub open spec fn first_two(s: Seq<char>) -> Seq<char> {
    if s.len() <= 2 { s } else { s.take(2) }
}

/// An avatar's initials: the first letters of the name's first two words,
/// uppercased.
pub fn initials(name: &str) -> (r: String)
    ensures
        r@ == crate::text::uppercased(first_two(word_starts(name@))),
{
    let ghost s = name@;
    let mut starts: Vec<char> = Vec::new();
    let mut prev_white = true;
    for c in it: name.chars()
        invariant
            it.seq() == s,
            starts@ == word_starts(s.take(it.index() as int)),
            it.index() > 0 ==> prev_white == is_white(s[it.index() - 1]),
            it.index() == 0 ==> prev_white,
    {
        proof {
            assert(s.take(it.index() + 1).drop_last() =~= s.take(it.index() as int));
            assert(s.take(it.index() + 1)[it.index() as int] == c);
            if it.index() > 0 {
                assert(s.take(it.index() + 1)[it.index() - 1] == s[it.index() - 1]);
            }
        }
        let white = is_white_exec(c);
        if !white && prev_white {
            starts.push(c);
        }
        prev_white = white;
    }
    assert(s.take(s.len() as int) =~= s);
    let mut two: Vec<char> = Vec::new();
    let mut k: usize = 0;
    while k < starts.len() && k < 2
        invariant
            k <= starts@.len(),
            k <= 2,
            two@ == starts@.take(k as int),
        decreases 2 - k,
    {
        two.push(starts[k]);
        assert(two@ =~= starts@.take(k + 1));
        k = k + 1;
    }
    assert(two@ =~= first_two(starts@));
    let lower = string_from_chars(two.as_slice());
    crate::text::to_uppercase(lower.as_str())
}

/// A signed number in decimal.
pub open spec fn signed_dec(n: int) -> Seq<char> {
    if n < 0 { "-"@ + dec((-n) as nat) } else { dec(n as nat) }
}

/// A count badge's label: nothing for a dot or a count of zero or less;
/// the count, or `{max}+` past the maximum.
pub fn badge_label(count: i64, max: i64, dot: bool) -> (r: Option<String>)
    ensures
        (dot || count <= 0) <==> r is None,
        r matches Some(l) ==> l@ == if count > max { signed_dec(max as int) + "+"@ } else { dec(count as nat) },
{
    if dot || count <= 0 {
        return None;
    }
    let mut v: Vec<char> = Vec::new();
    if count > max {
        if max < 0 {
            push_str(&mut v, "-");
            let m: i128 = max as i128;
            push_dec(&mut v, (-m) as u64);
        } else {
            push_dec(&mut v, max as u64);
        }
        push_str(&mut v, "+");
    } else {
        push_dec(&mut v, count as u64);
    }
    Some(string_from_chars(v.as_slice()))
}

/// A presence dot's colour.
pub open spec fn status_color_spec(p: Presence) -> Seq<char> {
    match p {
        Presence::Online => "var(--status-online)"@,
        Presence::Away => "var(--status-away)"@,
        Presence::Offline => "var(--status-offline)"@,
    }
}

pub fn status_color(p: Presence) -> (c: &'static str)
    ensures
        c@ == status_color_spec(p),
{
    match p {
        Presence::Online => "var(--status-online)",
        Presence::Away => "var(--status-away)",
        Presence::Offline => "var(--status-offline)",
    }
}


/// Each presence has its own dot colour: online, away and offline.
pub proof fn law_presences_have_their_colours(a: Presence, b: Presence)
    ensures
        status_color_spec(Presence::Online) == "var(--status-online)"@,
        status_color_spec(Presence::Away) == "var(--status-away)"@,
        status_color_spec(Presence::Offline) == "var(--status-offline)"@,
        a != b ==> status_color_spec(a) != status_color_spec(b),
{
    reveal_strlit("var(--status-online)");
    reveal_strlit("var(--status-away)");
    reveal_strlit("var(--status-offline)");
    if a != b && status_color_spec(a) == status_color_spec(b) {
        assert(status_color_spec(a).len() == status_color_spec(b).len());
        assert(status_color_spec(a)[15] == status_color_spec(b)[15]);
        assert(false);
    }
}

} // verus!
