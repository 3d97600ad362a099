//! Diagnostics support: the last-screen marker kept for crash dumps, the
//! token redactor applied to log text before it leaves the machine, and the
//! pure parts of assembling the "copy diagnostics" payload.
//!
//! Redaction policy: MXIDs and room ids stay (support needs them); values
//! after `access_token=`, `refresh_token=`, their JSON forms and `Bearer `
//! are replaced by `[REDACTED]`.

use vstd::prelude::*;

use crate::text::{
    chars_of, is_white, is_white_exec, lemma_lex_irrefl, lemma_lex_total, lemma_lex_trans, lex_less, lex_lt,
    matches_at, matches_at_exec, push_all, push_str, slice_vec, string_from_chars,
};

verus! {

/// How many lines of the newest log file the copied diagnostics include.
pub const LOG_TAIL_LINES: usize = 250;

// ----------------------------------------------------------------------
// Last screen
// ----------------------------------------------------------------------

/// Coarse screen the user had open (no ids, no content).
#[derive(Debug, Clone, Copy, PartialEq, Eq, Structural)]
pub enum Screen {
    Startup,
    Login,
    Home,
    Room,
    Settings,
}

/// The code a screen is stored as.
pub open spec fn screen_code(s: Screen) -> u8 {
    match s {
        Screen::Startup => 0,
        Screen::Login => 1,
        Screen::Home => 2,
        Screen::Room => 3,
        Screen::Settings => 4,
    }
}

/// The name reported for a stored code (unknown codes read as startup).
pub open spec fn code_name(v: u8) -> Seq<char> {
    if v == 1 {
        "login"@
    } else if v == 2 {
        "home"@
    } else if v == 3 {
        "room"@
    } else if v == 4 {
        "settings"@
    } else {
        "startup"@
    }
}

/// The name of a screen.
pub open spec fn screen_name(s: Screen) -> Seq<char> {
    match s {
        Screen::Startup => "startup"@,
        Screen::Login => "login"@,
        Screen::Home => "home"@,
        Screen::Room => "room"@,
        Screen::Settings => "settings"@,
    }
}

impl Screen {
    /// The code the screen is stored as.
    pub fn as_u8(self) -> (v: u8)
        ensures
            v == screen_code(self),
    {
        match self {
            Screen::Startup => 0,
            Screen::Login => 1,
            Screen::Home => 2,
            Screen::Room => 3,
            Screen::Settings => 4,
        }
    }

    /// The screen name for a stored code.
    pub fn from_u8(v: u8) -> (name: &'static str)
        ensures
            name@ == code_name(v),
    {
        if v == 1 {
            "login"
        } else if v == 2 {
            "home"
        } else if v == 3 {
            "room"
        } else if v == 4 {
            "settings"
        } else {
            "startup"
        }
    }
}

/// The last recorded screen's name, from the stored code.
pub fn last_screen(stored: u8) -> (name: &'static str)
    ensures
        name@ == code_name(stored),
{
    Screen::from_u8(stored)
}

/// Storing a screen and reading it back yields that screen's name.
pub proof fn law_screen_round_trip(s: Screen)
    ensures
        code_name(screen_code(s)) == screen_name(s),
{
}

// ----------------------------------------------------------------------
// Redaction
// ----------------------------------------------------------------------

/// The markers whose following value is a secret, in priority order.
pub open spec fn markers() -> Seq<Seq<char>> {
    seq![
        "access_token="@,
        "refresh_token="@,
        "\"access_token\":\""@,
        "\"refresh_token\":\""@,
        "Bearer "@,
    ]
}

/// The replacement text for a secret value.
pub open spec fn redacted_text() -> Seq<char> {
    "[REDACTED]"@
}

/// The first marker (by priority) occurring in `s` at `i`.
pub open spec fn marker_at(s: Seq<char>, i: int) -> Option<nat> {
    if matches_at(s, i, markers()[0]) {
        Some(0nat)
    } else if matches_at(s, i, markers()[1]) {
        Some(1nat)
    } else if matches_at(s, i, markers()[2]) {
        Some(2nat)
    } else if matches_at(s, i, markers()[3]) {
        Some(3nat)
    } else if matches_at(s, i, markers()[4]) {
        Some(4nat)
    } else {
        None
    }
}

/// The earliest position `>= i` where a marker occurs, with the marker.
pub open spec fn scan(s: Seq<char>, i: int) -> Option<(int, nat)>
    decreases s.len() - i,
{
    if i < 0 || i > s.len() {
        None
    } else if marker_at(s, i) is Some {
        Some((i, marker_at(s, i)->0))
    } else if i == s.len() {
        None
    } else {
        scan(s, i + 1)
    }
}

/// Characters that end a secret value.
pub open spec fn ends_value(c: char) -> bool {
    is_white(c) || c == '"' || c == '&' || c == '}'
}

/// Length of the value at the start of `s`.
pub open spec fn value_len(s: Seq<char>) -> nat
    decreases s.len(),
{
    if s.len() == 0 || ends_value(s[0]) {
        0
    } else {
        1 + value_len(s.drop_first())
    }
}

/// `s` with every marker's value replaced by `[REDACTED]`: text up to the
/// earliest marker is kept, the marker is kept, a non-empty value becomes
/// `[REDACTED]`, and the rest is redacted the same way.
pub open spec fn redact_spec(s: Seq<char>) -> Seq<char>
    decreases s.len(),
{
    match scan(s, 0) {
        None => s,
        Some((i, k)) => {
            let m = markers()[k as int];
            let rest = s.subrange(i + m.len(), s.len() as int);
            let e = value_len(rest);
            let tail = rest.subrange(e as int, rest.len() as int);
            if m.len() == 0 || tail.len() >= s.len() {
                s
            } else {
                s.subrange(0, i) + m + (if e > 0 {
                    redacted_text()
                } else {
                    Seq::empty()
                }) + redact_spec(tail)
            }
        },
    }
}

proof fn lemma_scan_bounds(s: Seq<char>, i: int)
    ensures
        scan(s, i) matches Some((j, k)) ==> i <= j <= s.len() && k < 5 && marker_at(s, j)
            == Some(k) && (forall|l: int| i <= l < j ==> marker_at(s, l) is None),
        scan(s, i) is None ==> (forall|l: int| i <= l && 0 <= i ==> marker_at(s, l) is None),
    decreases s.len() - i,
{
    if i < 0 || i > s.len() {
        if scan(s, i) is None && 0 <= i {
            assert forall|l: int| i <= l implies marker_at(s, l) is None by {
                assert(!matches_at(s, l, markers()[0]));
            }
        }
    } else if marker_at(s, i) is Some {
    } else if i == s.len() {
        assert forall|l: int| i <= l implies marker_at(s, l) is None by {
            if l > i {
                assert(!matches_at(s, l, markers()[0]));
            }
        }
    } else {
        lemma_scan_bounds(s, i + 1);
    }
}

/// The markers as character vectors, in priority order.
fn marker_vecs() -> (v: Vec<Vec<char>>)
    ensures
        v.len() == 5,
        forall|k: int| 0 <= k < 5 ==> (#[trigger] v@[k])@ == markers()[k],
{
    let mut v: Vec<Vec<char>> = Vec::new();
    v.push(chars_of("access_token="));
    v.push(chars_of("refresh_token="));
    v.push(chars_of("\"access_token\":\""));
    v.push(chars_of("\"refresh_token\":\""));
    v.push(chars_of("Bearer "));
    v
}

/// The first marker occurring at `i` (see [`marker_at`]).
fn marker_at_exec(s: &Vec<char>, i: usize, mk: &Vec<Vec<char>>) -> (r: Option<usize>)
    requires
        mk.len() == 5,
        forall|k: int| 0 <= k < 5 ==> (#[trigger] mk@[k])@ == markers()[k],
    ensures
        r matches Some(k) ==> marker_at(s@, i as int) == Some(k as nat),
        r is None ==> marker_at(s@, i as int) is None,
{
    let mut k: usize = 0;
    while k < 5
        invariant
            k <= 5,
            mk.len() == 5,
            forall|k: int| 0 <= k < 5 ==> (#[trigger] mk@[k])@ == markers()[k],
            forall|j: int| 0 <= j < k ==> !matches_at(s@, i as int, markers()[j]),
        decreases 5 - k,
    {
        if matches_at_exec(s, i, &mk[k]) {
            return Some(k);
        }
        k = k + 1;
    }
    None
}

/// The earliest marker occurrence in `s`, as (position, marker index).
fn find_marker(s: &Vec<char>, mk: &Vec<Vec<char>>) -> (r: Option<(usize, usize)>)
    requires
        mk.len() == 5,
        forall|k: int| 0 <= k < 5 ==> (#[trigger] mk@[k])@ == markers()[k],
    ensures
        r matches Some((i, k)) ==> scan(s@, 0) == Some((i as int, k as nat)),
        r is None ==> scan(s@, 0) is None,
{
    let mut i: usize = 0;
    loop
        invariant
            i <= s.len(),
            mk.len() == 5,
            forall|k: int| 0 <= k < 5 ==> (#[trigger] mk@[k])@ == markers()[k],
            scan(s@, 0) == scan(s@, i as int),
        decreases s.len() - i,
    {
        match marker_at_exec(s, i, mk) {
            Some(k) => {
                return Some((i, k));
            },
            None => {},
        }
        if i == s.len() {
            return None;
        }
        i = i + 1;
    }
}

/// Length of the value starting at `from` (see [`value_len`]).
fn value_len_exec(s: &Vec<char>, from: usize) -> (e: usize)
    requires
        from <= s.len(),
    ensures
        e == value_len(s@.subrange(from as int, s.len() as int)),
        from + e <= s.len(),
{
    let mut j = from;
    while j < s.len() && !(is_white_exec(s[j]) || s[j] == '"' || s[j] == '&' || s[j] == '}')
        invariant
            from <= j <= s.len(),
            forall|l: int| from <= l < j ==> !ends_value(s@[l]),
        decreases s.len() - j,
    {
        j = j + 1;
    }
    proof {
        lemma_value_len(s@.subrange(from as int, s.len() as int), (j - from) as int);
    }
    j - from
}

proof fn lemma_value_len(t: Seq<char>, n: int)
    requires
        0 <= n <= t.len(),
        forall|l: int| 0 <= l < n ==> !ends_value(t[l]),
        n == t.len() || ends_value(t[n]),
    ensures
        value_len(t) == n,
    decreases n,
{
    if n > 0 {
        lemma_value_len(t.drop_first(), n - 1);
    }
}

/// Replace token-shaped values with `[REDACTED]` (see [`redact_spec`]).
/// Values end at whitespace, a quote, an ampersand or a closing brace.
pub fn redact(input: &str) -> (out: String)
    ensures
        out@ == redact_spec(input@),
{
    let mut out: Vec<char> = Vec::new();
    redact_into(input, &mut out);
    string_from_chars(out.as_slice())
}

/// Appends the redaction of `input` to `out`.
pub fn redact_into(input: &str, out: &mut Vec<char>)
    ensures
        final(out)@ == old(out)@ + redact_spec(input@),
{
    let mk = marker_vecs();
    let replacement = chars_of("[REDACTED]");
    let mut cur = chars_of(input);
    loop
        invariant
            mk.len() == 5,
            forall|k: int| 0 <= k < 5 ==> (#[trigger] mk@[k])@ == markers()[k],
            replacement@ == redacted_text(),
            out@ + redact_spec(cur@) == old(out)@ + redact_spec(input@),
        decreases cur.len(),
    {
        match find_marker(&cur, &mk) {
            None => {
                push_all(out, &cur);
                return;
            },
            Some((i, k)) => {
                proof {
                    lemma_scan_bounds(cur@, 0);
                }
                let ghost c = cur@;
                let m = &mk[k];
                let ghost mm = markers()[k as int];
                assert(matches_at(c, i as int, mm));
                if m.len() == 0 {
                    push_all(out, &cur);
                    return;
                }
                let vs = i + m.len();
                let e = value_len_exec(&cur, vs);
                let ghost rest = c.subrange(vs as int, c.len() as int);
                let head = slice_vec(&cur, 0, i);
                push_all(out, &head);
                push_all(out, m);
                if e > 0 {
                    push_all(out, &replacement);
                }
                let next = slice_vec(&cur, vs + e, cur.len());
                proof {
                    let tail = rest.subrange(e as int, rest.len() as int);
                    assert(tail =~= next@);
                    assert(redact_spec(c) == c.subrange(0, i as int) + mm + (if e > 0 {
                        redacted_text()
                    } else {
                        Seq::empty()
                    }) + redact_spec(tail));
                    if e > 0 {
                        assert(out@ + redact_spec(next@) =~= old(out)@ + redact_spec(input@));
                    } else {
                        assert(out@ + redact_spec(next@) =~= old(out)@ + redact_spec(input@));
                    }
                }
                cur = next;
            },
        }
    }
}

/// Text in which no marker occurs is left unchanged by redaction.
pub proof fn law_redact_keeps_marker_free_text(s: Seq<char>)
    requires
        forall|k: int, i: int| 0 <= k < 5 ==> !#[trigger] matches_at(s, i, markers()[k]),
    ensures
        redact_spec(s) == s,
{
    lemma_scan_bounds(s, 0);
    if scan(s, 0) is Some {
        let (j, k) = scan(s, 0)->0;
        assert(marker_at(s, j) == Some(k));
        assert(!matches_at(s, j, markers()[k as int]));
    }
}

/// Characters a marker can start with.
pub open spec fn starts_marker(c: char) -> bool {
    c == 'a' || c == 'r' || c == '"' || c == 'B'
}

/// The markers, spelled out.
proof fn lemma_markers_spelled()
    ensures
        markers()[0] == seq!['a', 'c', 'c', 'e', 's', 's', '_', 't', 'o', 'k', 'e', 'n', '='],
        markers()[1] == seq!['r', 'e', 'f', 'r', 'e', 's', 'h', '_', 't', 'o', 'k', 'e', 'n', '='],
        markers()[2] == seq!['"', 'a', 'c', 'c', 'e', 's', 's', '_', 't', 'o', 'k', 'e', 'n', '"', ':', '"'],
        markers()[3] == seq!['"', 'r', 'e', 'f', 'r', 'e', 's', 'h', '_', 't', 'o', 'k', 'e', 'n', '"', ':', '"'],
        markers()[4] == seq!['B', 'e', 'a', 'r', 'e', 'r', ' '],
        redacted_text() == seq!['[', 'R', 'E', 'D', 'A', 'C', 'T', 'E', 'D', ']'],
{
    reveal_strlit("access_token=");
    reveal_strlit("refresh_token=");
    reveal_strlit("\"access_token\":\"");
    reveal_strlit("\"refresh_token\":\"");
    reveal_strlit("Bearer ");
    reveal_strlit("[REDACTED]");
    assert(markers()[0] =~= seq!['a', 'c', 'c', 'e', 's', 's', '_', 't', 'o', 'k', 'e', 'n', '=']);
    assert(markers()[1] =~= seq!['r', 'e', 'f', 'r', 'e', 's', 'h', '_', 't', 'o', 'k', 'e', 'n', '=']);
    assert(markers()[2] =~= seq!['"', 'a', 'c', 'c', 'e', 's', 's', '_', 't', 'o', 'k', 'e', 'n', '"', ':', '"']);
    assert(markers()[3] =~= seq!['"', 'r', 'e', 'f', 'r', 'e', 's', 'h', '_', 't', 'o', 'k', 'e', 'n', '"', ':', '"']);
    assert(markers()[4] =~= seq!['B', 'e', 'a', 'r', 'e', 'r', ' ']);
    assert(redacted_text() =~= seq!['[', 'R', 'E', 'D', 'A', 'C', 'T', 'E', 'D', ']']);
}

proof fn lemma_start_positions()
    ensures
        forall|d: int| 1 <= d < 13 ==> !starts_marker(#[trigger] markers()[0][d]),
        forall|d: int| 1 <= d < 14 && d != 3 ==> !starts_marker(#[trigger] markers()[1][d]),
        forall|d: int| 1 <= d < 16 && d != 1 && d != 13 && d != 15 ==> !starts_marker(#[trigger] markers()[2][d]),
        forall|d: int| 1 <= d < 17 && d != 1 && d != 4 && d != 14 && d != 16 ==> !starts_marker(#[trigger] markers()[3][d]),
        forall|d: int| 1 <= d < 7 && d != 2 && d != 3 && d != 5 ==> !starts_marker(#[trigger] markers()[4][d]),
        forall|d: int| 0 <= d < 10 ==> !starts_marker(#[trigger] redacted_text()[d]),
{
    lemma_markers_spelled();
}

/// Every marker starts with a character of [`starts_marker`], and the
/// redaction text has none.
proof fn lemma_first_chars(k: int)
    requires
        0 <= k < 5,
    ensures
        starts_marker(markers()[k][0]),
        markers()[k].len() >= 7,
{
    lemma_markers_spelled();
}

/// No marker occurs inside another (nor at its start, unless it is that
/// marker).
proof fn lemma_no_inner(outer: int, inner: int, d: int)
    requires
        0 <= outer < 5,
        0 <= inner < 5,
        0 <= d,
        d + markers()[inner].len() <= markers()[outer].len(),
        d > 0 || outer != inner,
    ensures
        markers()[outer].subrange(d, d + markers()[inner].len()) != markers()[inner],
{
    lemma_markers_spelled();
    lemma_start_positions();
    let mo = markers()[outer];
    let mi = markers()[inner];
    if mo.subrange(d, d + mi.len()) == mi {
        assert(mo[d] == mi[0]);
        assert(mo[d + 1] == mi[1]);
        if outer == 2 && d == 1 {
            assert(mo[d + 12] == mi[12]);
        }
        if outer == 3 && d == 1 {
            assert(mo[d + 13] == mi[13]);
        }
    }
}

/// Where the end of a marker overlaps the start of another: only the
/// closing quote of a JSON marker can begin another JSON marker.
proof fn lemma_overlap(k: int, k2: int, d: int)
    requires
        0 <= k < 5,
        0 <= k2 < 5,
        1 <= d < markers()[k].len(),
        markers()[k].len() - d < markers()[k2].len(),
        markers()[k].subrange(d, markers()[k].len() as int) == markers()[k2].subrange(0, markers()[k].len() - d),
    ensures
        d == markers()[k].len() - 1,
        markers()[k2][1] == 'a' || markers()[k2][1] == 'r',
{
    lemma_markers_spelled();
    lemma_start_positions();
    let m = markers()[k];
    let m2 = markers()[k2];
    let ov = m.len() - d;
    assert(m.subrange(d, m.len() as int)[0] == m2.subrange(0, ov)[0]);
    assert(m[d] == m2[0]);
    if d + 1 < m.len() {
        assert(m.subrange(d, m.len() as int)[1] == m2.subrange(0, ov)[1]);
        assert(m[d + 1] == m2[1]);
    }
    if d + 2 < m.len() {
        assert(m.subrange(d, m.len() as int)[2] == m2.subrange(0, ov)[2]);
        assert(m[d + 2] == m2[2]);
    }
}

/// The value of a marker: the characters up to the first value end.
proof fn lemma_value_len_props(t: Seq<char>)
    ensures
        value_len(t) <= t.len(),
        value_len(t) < t.len() ==> ends_value(t[value_len(t) as int]),
        forall|l: int| 0 <= l < value_len(t) ==> !ends_value(#[trigger] t[l]),
    decreases t.len(),
{
    if t.len() > 0 && !ends_value(t[0]) {
        lemma_value_len_props(t.drop_first());
        assert forall|l: int| 0 <= l < value_len(t) implies !ends_value(#[trigger] t[l]) by {
            if l > 0 {
                assert(t[l] == t.drop_first()[l - 1]);
            }
        }
    }
}

/// Redaction keeps a text's first character (and its emptiness).
proof fn lemma_redact_first(s: Seq<char>)
    ensures
        (redact_spec(s).len() == 0) == (s.len() == 0),
        s.len() > 0 ==> redact_spec(s)[0] == s[0],
{
    lemma_scan_bounds(s, 0);
    if let Some((i, k)) = scan(s, 0) {
        let m = markers()[k as int];
        lemma_first_chars(k as int);
        if i == 0 {
            assert(s.subrange(0, m.len() as int)[0] == m[0]);
        }
    }
}

/// The value following the marker occurrence at `j` (marker `k`).
pub open spec fn value_after(r: Seq<char>, j: int, k: nat) -> Seq<char> {
    let v = r.subrange(j + markers()[k as int].len(), r.len() as int);
    v.subrange(0, value_len(v) as int)
}

/// No secret is left in `r`: every marker in it is followed by no value
/// or by exactly the redaction text.
pub open spec fn secret_free(r: Seq<char>) -> bool {
    forall|j: int|
        #![trigger marker_at(r, j)]
        marker_at(r, j) is Some ==> (value_after(r, j, marker_at(r, j)->0).len() == 0 || value_after(
            r,
            j,
            marker_at(r, j)->0,
        ) == redacted_text())
}

/// Markers found after an offset in a concatenation are those of its tail.
proof fn lemma_marker_in_tail(out: Seq<char>, off: int, t: Seq<char>, j: int)
    requires
        0 <= off <= out.len(),
        out.subrange(off, out.len() as int) == t,
        off <= j,
    ensures
        marker_at(out, j) == marker_at(t, j - off),
        marker_at(out, j) is Some ==> value_after(out, j, marker_at(out, j)->0) == value_after(
            t,
            j - off,
            marker_at(out, j)->0,
        ),
{
    assert forall|k: int| 0 <= k < 5 implies #[trigger] matches_at(out, j, markers()[k]) == matches_at(
        t,
        j - off,
        markers()[k],
    ) by {
        let l = markers()[k].len();
        if j + l <= out.len() {
            assert(out.subrange(j, j + l) =~= t.subrange(j - off, j - off + l));
        }
    }
    if marker_at(out, j) is Some {
        let k = marker_at(out, j)->0;
        let l = markers()[k as int].len();
        assert(out.subrange(j + l, out.len() as int) =~= t.subrange(j - off + l, t.len() as int));
    }
}

/// A marker that starts before the earliest marker of `s` cannot match in
/// a text that agrees with `s` through that marker.
proof fn lemma_case_before(out: Seq<char>, s: Seq<char>, i: int, k: int, j: int)
    requires
        0 <= k < 5,
        0 <= i,
        i + markers()[k].len() <= s.len(),
        i + markers()[k].len() <= out.len(),
        out.subrange(0, i + markers()[k].len()) == s.subrange(0, i + markers()[k].len()),
        matches_at(s, i, markers()[k]),
        forall|l: int| 0 <= l < i ==> marker_at(s, l) is None,
        j < i,
    ensures
        marker_at(out, j) is None,
{
    let m = markers()[k];
    assert forall|k2: int| 0 <= k2 < 5 implies !#[trigger] matches_at(out, j, markers()[k2]) by {
        let m2 = markers()[k2];
        if matches_at(out, j, m2) {
            if j + m2.len() <= i + m.len() {
                assert(out.subrange(j, j + m2.len()) =~= s.subrange(j, j + m2.len())) by {
                    assert forall|t: int| 0 <= t < m2.len() implies #[trigger] out.subrange(j, j + m2.len())[t] == s.subrange(j, j + m2.len())[t] by {
                        assert(out.subrange(0, i + m.len())[j + t] == s.subrange(0, i + m.len())[j + t]);
                    }
                }
                assert(matches_at(s, j, m2));
                assert(marker_at(s, j) is None);
                assert(!matches_at(s, j, markers()[k2]));
            } else {
                let d = i - j;
                assert(m2.subrange(d, d + m.len()) =~= m) by {
                    assert forall|t: int| 0 <= t < m.len() implies #[trigger] m2.subrange(d, d + m.len())[t] == m[t] by {
                        assert(out.subrange(j, j + m2.len())[d + t] == out[i + t]);
                        assert(out.subrange(0, i + m.len())[i + t] == s.subrange(0, i + m.len())[i + t]);
                        assert(s.subrange(i, i + m.len())[t] == s[i + t]);
                    }
                }
                lemma_no_inner(k2, k, d);
            }
        }
    }
}

/// At the earliest marker, the redacted text holds that marker.
proof fn lemma_case_at(out: Seq<char>, s: Seq<char>, i: int, k: int)
    requires
        0 <= k < 5,
        0 <= i,
        i + markers()[k].len() <= s.len(),
        i + markers()[k].len() <= out.len(),
        out.subrange(0, i + markers()[k].len()) == s.subrange(0, i + markers()[k].len()),
        marker_at(s, i) == Some(k as nat),
    ensures
        marker_at(out, i) == Some(k as nat),
{
    let m = markers()[k];
    assert(out.subrange(i, i + m.len()) =~= s.subrange(i, i + m.len())) by {
        assert forall|t: int| 0 <= t < m.len() implies #[trigger] out.subrange(i, i + m.len())[t] == s.subrange(i, i + m.len())[t] by {
            assert(out.subrange(0, i + m.len())[i + t] == s.subrange(0, i + m.len())[i + t]);
        }
    }
    assert(matches_at(out, i, m));
    assert forall|k2: int| 0 <= k2 < k implies !#[trigger] matches_at(out, i, markers()[k2]) by {
        let m2 = markers()[k2];
        if matches_at(out, i, m2) {
            if m2.len() <= m.len() {
                assert(out.subrange(i, i + m2.len()) =~= s.subrange(i, i + m2.len())) by {
                    assert forall|t: int| 0 <= t < m2.len() implies #[trigger] out.subrange(i, i + m2.len())[t] == s.subrange(i, i + m2.len())[t] by {
                        assert(out.subrange(0, i + m.len())[i + t] == s.subrange(0, i + m.len())[i + t]);
                    }
                }
                assert(matches_at(s, i, m2));
            } else {
                assert(m2.subrange(0, m.len() as int) =~= m) by {
                    assert forall|t: int| 0 <= t < m.len() implies #[trigger] m2.subrange(0, m.len() as int)[t] == m[t] by {
                        assert(out.subrange(i, i + m2.len())[t] == out[i + t]);
                        assert(out.subrange(i, i + m.len())[t] == out[i + t]);
                    }
                }
                lemma_no_inner(k2, k, 0);
            }
        }
    }
}

/// No marker starts inside a marker when the character after it cannot
/// continue a JSON marker.
proof fn lemma_case_inside(out: Seq<char>, i: int, k: int, j: int)
    requires
        0 <= k < 5,
        0 <= i,
        i + markers()[k].len() <= out.len(),
        out.subrange(i, i + markers()[k].len()) == markers()[k],
        out.len() > i + markers()[k].len() ==> out[i + markers()[k].len()] != 'a' && out[i + markers()[k].len()] != 'r',
        i < j < i + markers()[k].len(),
    ensures
        marker_at(out, j) is None,
{
    let m = markers()[k];
    let d = j - i;
    assert forall|k2: int| 0 <= k2 < 5 implies !#[trigger] matches_at(out, j, markers()[k2]) by {
        let m2 = markers()[k2];
        if matches_at(out, j, m2) {
            if j + m2.len() <= i + m.len() {
                assert(m.subrange(d, d + m2.len()) =~= m2) by {
                    assert forall|t: int| 0 <= t < m2.len() implies #[trigger] m.subrange(d, d + m2.len())[t] == m2[t] by {
                        assert(out.subrange(j, j + m2.len())[t] == out[j + t]);
                        assert(out.subrange(i, i + m.len())[d + t] == out[j + t]);
                    }
                }
                lemma_no_inner(k, k2, d);
            } else {
                let ov = m.len() - d;
                assert(m.subrange(d, m.len() as int) =~= m2.subrange(0, ov)) by {
                    assert forall|t: int| 0 <= t < ov implies #[trigger] m.subrange(d, m.len() as int)[t] == m2.subrange(0, ov)[t] by {
                        assert(out.subrange(j, j + m2.len())[t] == out[j + t]);
                        assert(out.subrange(i, i + m.len())[d + t] == out[j + t]);
                    }
                }
                lemma_overlap(k, k2, d);
                assert(out.subrange(j, j + m2.len())[1] == out[i + m.len()]);
            }
        }
    }
}

/// No marker starts inside the redaction text.
proof fn lemma_case_redacted(out: Seq<char>, p: int, j: int)
    requires
        0 <= p,
        p + 10 <= out.len(),
        out.subrange(p, p + 10) == redacted_text(),
        p <= j < p + 10,
    ensures
        marker_at(out, j) is None,
{
    lemma_start_positions();
    assert(out[j] == out.subrange(p, p + 10)[j - p]);
    assert forall|k2: int| 0 <= k2 < 5 implies !#[trigger] matches_at(out, j, markers()[k2]) by {
        lemma_first_chars(k2);
        if matches_at(out, j, markers()[k2]) {
            assert(out.subrange(j, j + markers()[k2].len())[0] == out[j]);
        }
    }
}

/// Redacted text holds no secret: every marker in it is followed by no
/// value or by exactly `[REDACTED]`.
pub proof fn law_redaction_leaves_no_secret(s: Seq<char>)
    ensures
        secret_free(redact_spec(s)),
    decreases s.len(),
{
    lemma_scan_bounds(s, 0);
    let out = redact_spec(s);
    match scan(s, 0) {
        None => {
            assert forall|j: int| #![trigger marker_at(out, j)] marker_at(out, j) is None by {
                if j < 0 {
                    assert(!matches_at(out, j, markers()[0]));
                    assert(!matches_at(out, j, markers()[1]));
                    assert(!matches_at(out, j, markers()[2]));
                    assert(!matches_at(out, j, markers()[3]));
                    assert(!matches_at(out, j, markers()[4]));
                }
            }
        },
        Some((i, k)) => {
            let m = markers()[k as int];
            lemma_first_chars(k as int);
            let rest = s.subrange(i + m.len(), s.len() as int);
            let e = value_len(rest);
            lemma_value_len_props(rest);
            let tail = rest.subrange(e as int, rest.len() as int);
            let x: Seq<char> = if e > 0 { redacted_text() } else { Seq::empty() };
            let t2 = redact_spec(tail);
            law_redaction_leaves_no_secret(tail);
            lemma_redact_first(tail);
            lemma_markers_spelled();
            let pre = s.subrange(0, i);
            assert(out == pre + m + x + t2);
            let off = i + m.len() + x.len();
            assert(out.subrange(0, i + m.len()) =~= s.subrange(0, i + m.len()));
            assert(out.subrange(i, i + m.len()) =~= m);
            assert(out.subrange(i + m.len(), off) =~= x);
            assert(out.subrange(off, out.len() as int) =~= t2);
            assert(t2.len() > 0 ==> ends_value(t2[0])) by {
                if t2.len() > 0 {
                    assert(tail[0] == rest[e as int]);
                }
            }
            if out.len() > i + m.len() {
                if e > 0 {
                    assert(out[i + m.len()] == x[0]);
                } else {
                    assert(out[i + m.len()] == t2[0]);
                }
            }
            assert forall|j: int|
                #![trigger marker_at(out, j)]
                marker_at(out, j) is Some implies (value_after(out, j, marker_at(out, j)->0).len() == 0
                    || value_after(out, j, marker_at(out, j)->0) == redacted_text()) by {
                if j < i {
                    lemma_case_before(out, s, i, k as int, j);
                } else if j == i {
                    lemma_case_at(out, s, i, k as int);
                    let v = out.subrange(i + m.len(), out.len() as int);
                    assert(v =~= x + t2);
                    if e > 0 {
                        assert forall|l: int| 0 <= l < 10 implies !ends_value(#[trigger] v[l]) by {
                            assert(v[l] == x[l]);
                        }
                        if v.len() > 10 {
                            assert(v[10] == t2[0]);
                        }
                        lemma_value_len(v, 10);
                        assert(v.subrange(0, 10) =~= redacted_text());
                    } else {
                        if v.len() > 0 {
                            assert(v[0] == t2[0]);
                        }
                        lemma_value_len(v, 0);
                    }
                } else if j < i + m.len() {
                    lemma_case_inside(out, i, k as int, j);
                } else if j < off {
                    lemma_case_redacted(out, i + m.len(), j);
                } else {
                    lemma_marker_in_tail(out, off, t2, j);
                }
            }
        },
    }
}

// ----------------------------------------------------------------------
// Log tail
// ----------------------------------------------------------------------

/// Index of the first `'\n'` in `s`, if any.
pub open spec fn first_newline(s: Seq<char>) -> Option<nat>
    decreases s.len(),
{
    if s.len() == 0 {
        None
    } else if s[0] == '\n' {
        Some(0nat)
    } else {
        match first_newline(s.drop_first()) {
            Some(i) => Some(i + 1),
            None => None,
        }
    }
}

/// The lines of `s` as `str::lines` yields them: split at `'\n'`, a `'\r'`
/// right before the `'\n'` dropped, and no empty line after a final
/// newline.
pub open spec fn lines_of(s: Seq<char>) -> Seq<Seq<char>>
    decreases s.len(),
{
    if s.len() == 0 {
        Seq::empty()
    } else {
        match first_newline(s) {
            None => seq![s],
            Some(i) => {
                let line = if i > 0 && s[i - 1] == '\r' {
                    s.subrange(0, i - 1)
                } else {
                    s.subrange(0, i as int)
                };
                if i < s.len() {
                    seq![line] + lines_of(s.subrange(i + 1int, s.len() as int))
                } else {
                    seq![line]
                }
            },
        }
    }
}

/// The lines joined with `'\n'` between them.
pub open spec fn join_lines(ls: Seq<Seq<char>>) -> Seq<char>
    decreases ls.len(),
{
    if ls.len() == 0 {
        Seq::empty()
    } else if ls.len() == 1 {
        ls[0]
    } else {
        join_lines(ls.drop_last()) + seq!['\n'] + ls.last()
    }
}

/// The last `n` lines of `content`, joined with `'\n'`.
pub open spec fn tail_spec(content: Seq<char>, n: nat) -> Seq<char> {
    let ls = lines_of(content);
    let start = if ls.len() > n {
        ls.len() - n
    } else {
        0
    };
    join_lines(ls.subrange(start as int, ls.len() as int))
}

proof fn lemma_first_newline(s: Seq<char>, i: int)
    requires
        0 <= i <= s.len(),
        forall|k: int| 0 <= k < i ==> s[k] != '\n',
    ensures
        i < s.len() && s[i] == '\n' ==> first_newline(s) == Some(i as nat),
        i == s.len() ==> first_newline(s) is None,
    decreases i,
{
    if i > 0 {
        lemma_first_newline(s.drop_first(), i - 1);
    }
}

/// The lines of `content` (see [`lines_of`]).
pub fn split_lines(content: &Vec<char>) -> (ls: Vec<Vec<char>>)
    ensures
        ls@.len() == lines_of(content@).len(),
        forall|k: int| 0 <= k < ls@.len() ==> (#[trigger] ls@[k])@ == lines_of(content@)[k],
{
    let mut ls: Vec<Vec<char>> = Vec::new();
    let mut pos: usize = 0;
    proof {
        assert(content@.subrange(0, content.len() as int) =~= content@);
        assert(Seq::new(ls@.len(), |k: int| ls@[k]@) =~= Seq::<Seq<char>>::empty());
        assert(Seq::<Seq<char>>::empty() + lines_of(content@) =~= lines_of(content@));
    }
    while pos < content.len()
        invariant
            pos <= content.len(),
            lines_of(content@) == {
                let got = Seq::new(ls@.len(), |k: int| ls@[k]@);
                got + lines_of(content@.subrange(pos as int, content.len() as int))
            },
        decreases content.len() - pos,
    {
        let ghost rest = content@.subrange(pos as int, content.len() as int);
        let mut j = pos;
        while j < content.len() && content[j] != '\n'
            invariant
                pos <= j <= content.len(),
                forall|k: int| pos <= k < j ==> content@[k] != '\n',
            decreases content.len() - j,
        {
            j = j + 1;
        }
        proof {
            lemma_first_newline(rest, (j - pos) as int);
        }
        let end = if j > pos && content[j - 1] == '\r' && j < content.len() {
            j - 1
        } else {
            j
        };
        let line = slice_vec(content, pos, end);
        let ghost old_ls = ls@;
        ls.push(line);
        let next = if j < content.len() {
            j + 1
        } else {
            j
        };
        proof {
            let got_old = Seq::new(old_ls.len(), |k: int| old_ls[k]@);
            let got_new = Seq::new(ls@.len(), |k: int| ls@[k]@);
            assert(got_new =~= got_old.push(line@));
            if j < content.len() {
                assert(line@ =~= (if j - pos > 0 && rest[j - pos - 1] == '\r' {
                    rest.subrange(0, j - pos - 1)
                } else {
                    rest.subrange(0, (j - pos) as int)
                }));
                assert(rest.subrange(j - pos + 1, rest.len() as int) =~= content@.subrange(
                    next as int,
                    content.len() as int,
                ));
                assert(lines_of(rest) == seq![line@] + lines_of(
                    content@.subrange(next as int, content.len() as int),
                ));
                assert(got_old + lines_of(rest) =~= got_new + lines_of(
                    content@.subrange(next as int, content.len() as int),
                ));
            } else {
                assert(line@ =~= rest);
                assert(lines_of(rest) == seq![line@]);
                assert(content@.subrange(next as int, content.len() as int) =~= Seq::<
                    char,
                >::empty());
                assert(got_old + lines_of(rest) =~= got_new + lines_of(
                    content@.subrange(next as int, content.len() as int),
                ));
            }
        }
        pos = next;
    }
    proof {
        assert(content@.subrange(pos as int, content.len() as int) =~= Seq::<char>::empty());
        let got = Seq::new(ls@.len(), |k: int| ls@[k]@);
        assert(lines_of(content@) =~= got);
    }
    ls
}

/// The last `n` lines of `content`, joined with `'\n'` (what the copied
/// diagnostics include of the newest log file).
pub fn tail_lines(content: &str, n: usize) -> (t: String)
    ensures
        t@ == tail_spec(content@, n as nat),
{
    let c = chars_of(content);
    let ls = split_lines(&c);
    let ghost all = lines_of(content@);
    let start = if ls.len() > n {
        ls.len() - n
    } else {
        0
    };
    let mut out: Vec<char> = Vec::new();
    let mut k = start;
    while k < ls.len()
        invariant
            start <= k <= ls.len(),
            ls@.len() == all.len(),
            forall|q: int| 0 <= q < ls@.len() ==> (#[trigger] ls@[q])@ == all[q],
            out@ == join_lines(all.subrange(start as int, k as int)),
        decreases ls.len() - k,
    {
        let ghost before = all.subrange(start as int, k as int);
        if k > start {
            out.push('\n');
        }
        push_all(&mut out, &ls[k]);
        proof {
            let after = all.subrange(start as int, k + 1);
            assert(after.drop_last() =~= before);
            if k > start {
                assert(out@ =~= join_lines(after));
            } else {
                assert(after =~= seq![all[k as int]]);
                assert(out@ =~= join_lines(after));
            }
        }
        k = k + 1;
    }
    string_from_chars(out.as_slice())
}

// ----------------------------------------------------------------------
// The report
// ----------------------------------------------------------------------

/// `k` holds the greatest name (the first of equal ones).
pub open spec fn is_newest(names: Seq<Seq<char>>, k: int) -> bool {
    &&& 0 <= k < names.len()
    &&& forall|j: int| 0 <= j < names.len() ==> !lex_lt(names[k], #[trigger] names[j])
    &&& forall|j: int| 0 <= j < k ==> lex_lt(#[trigger] names[j], names[k])
}

/// The log file to report: the one whose name sorts last (log files are
/// named by date), if there is any.
pub fn newest_log(names: &Vec<String>) -> (r: Option<usize>)
    ensures
        names@.len() == 0 <==> r is None,
        r matches Some(k) ==> is_newest(crate::model::strings_view(names@), k as int),
{
    if names.len() == 0 {
        return None;
    }
    let ghost ns = crate::model::strings_view(names@);
    let mut best: usize = 0;
    let mut best_v = chars_of(names[0].as_str());
    proof {
        lemma_lex_irrefl(ns[0]);
    }
    for i in 1..names.len()
        invariant
            ns == crate::model::strings_view(names@),
            names@.len() > 0,
            best < i,
            best_v@ == ns[best as int],
            forall|j: int| 0 <= j < i ==> !lex_lt(ns[best as int], #[trigger] ns[j]),
            forall|j: int| 0 <= j < best ==> lex_lt(#[trigger] ns[j], ns[best as int]),
    {
        let v = chars_of(names[i].as_str());
        assert(v@ == ns[i as int]);
        if lex_less(&best_v, &v) {
            proof {
                assert forall|j: int| 0 <= j < i + 1 implies !lex_lt(ns[i as int], #[trigger] ns[j]) by {
                    lemma_lex_total(ns[i as int], ns[j]);
                    if j < i && lex_lt(ns[i as int], ns[j]) {
                        lemma_lex_trans(ns[best as int], ns[i as int], ns[j]);
                    }
                }
                assert forall|j: int| 0 <= j < i implies lex_lt(#[trigger] ns[j], ns[i as int]) by {
                    lemma_lex_total(ns[j], ns[best as int]);
                    if j < best {
                        lemma_lex_trans(ns[j], ns[best as int], ns[i as int]);
                    } else if ns[j] == ns[best as int] {
                    } else {
                        lemma_lex_total(ns[best as int], ns[j]);
                        lemma_lex_trans(ns[j], ns[best as int], ns[i as int]);
                    }
                }
            }
            best = i;
            best_v = v;
        } else {
            proof {
                lemma_lex_total(ns[best as int], ns[i as int]);
            }
        }
    }
    Some(best)
}

/// The last lines of the newest log, or why they could not be read.
#[derive(Debug, Clone, PartialEq, Eq)]
pub enum LogTail {
    Lines(String),
    Unreadable(String),
}

/// What was found of the log for the report.
#[derive(Debug, Clone, PartialEq, Eq)]
pub enum LogReport {
    /// The newest log file: its path, size, and its tail.
    Found { path: String, size: u64, tail: LogTail },
    NoneYet,
    /// The log directory could not be read, and why.
    DirUnavailable(String),
}

/// The diagnostics text a user copies into a bug report: version, system,
/// last screen, credential backend, and the newest log's tail with
/// credentials redacted.
pub open spec fn report_spec(version: Seq<char>, os: Seq<char>, screen: Seq<char>, secrets: Seq<char>, log: LogReport) -> Seq<char> {
    "Vesper diagnostics\n"@ + "version: "@ + version + "\n"@ + "os: "@ + os + "\n"@ + "screen: "@ + screen + "\n"@
        + "secrets: "@ + secrets + "\n"@ + match log {
        LogReport::Found { path, size, tail } => "log: "@ + path@ + " ("@ + crate::media::format_size_spec(size as nat)
            + ")\n"@ + match tail {
            LogTail::Lines(t) => "--- log tail (redacted) ---\n"@ + redact_spec(t@),
            LogTail::Unreadable(e) => "(log unreadable: "@ + e@ + ")\n"@,
        },
        LogReport::NoneYet => "log: none yet\n"@,
        LogReport::DirUnavailable(e) => "log dir unavailable: "@ + e@ + "\n"@,
    }
}

pub fn report(version: &str, os: &str, screen: &str, secrets: &str, log: &LogReport) -> (r: String)
    ensures
        r@ == report_spec(version@, os@, screen@, secrets@, *log),
{
    let mut v: Vec<char> = Vec::new();
    push_str(&mut v, "Vesper diagnostics\n");
    push_str(&mut v, "version: ");
    push_str(&mut v, version);
    push_str(&mut v, "\n");
    push_str(&mut v, "os: ");
    push_str(&mut v, os);
    push_str(&mut v, "\n");
    push_str(&mut v, "screen: ");
    push_str(&mut v, screen);
    push_str(&mut v, "\n");
    push_str(&mut v, "secrets: ");
    push_str(&mut v, secrets);
    push_str(&mut v, "\n");
    let ghost head = v@;
    match log {
        LogReport::Found { path, size, tail } => {
            push_str(&mut v, "log: ");
            push_str(&mut v, path.as_str());
            push_str(&mut v, " (");
            push_str(&mut v, crate::media::format_size(*size).as_str());
            push_str(&mut v, ")\n");
            match tail {
                LogTail::Lines(t) => {
                    push_str(&mut v, "--- log tail (redacted) ---\n");
                    push_str(&mut v, redact(t.as_str()).as_str());
                },
                LogTail::Unreadable(e) => {
                    push_str(&mut v, "(log unreadable: ");
                    push_str(&mut v, e.as_str());
                    push_str(&mut v, ")\n");
                },
            }
        },
        LogReport::NoneYet => {
            push_str(&mut v, "log: none yet\n");
        },
        LogReport::DirUnavailable(e) => {
            push_str(&mut v, "log dir unavailable: ");
            push_str(&mut v, e.as_str());
            push_str(&mut v, "\n");
        },
    }
    assert(v@ =~= report_spec(version@, os@, screen@, secrets@, *log));
    string_from_chars(v.as_slice())
}


/// Each screen is named for itself (`startup`, `login`, `home`, `room`,
/// `settings`), and no two screens share a name.
pub proof fn law_screens_have_their_names(a: Screen, b: Screen)
    ensures
        screen_name(Screen::Startup) == "startup"@,
        screen_name(Screen::Login) == "login"@,
        screen_name(Screen::Home) == "home"@,
        screen_name(Screen::Room) == "room"@,
        screen_name(Screen::Settings) == "settings"@,
        a != b ==> screen_name(a) != screen_name(b),
{
    reveal_strlit("startup");
    reveal_strlit("login");
    reveal_strlit("home");
    reveal_strlit("room");
    reveal_strlit("settings");
    if a != b && screen_name(a) == screen_name(b) {
        assert(screen_name(a)[0] == screen_name(b)[0]);
        assert(false);
    }
}

} // verus!
