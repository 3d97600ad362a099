//! The small markdown dialect messages are written in: HTML is escaped
//! first, then `**bold**`, `*italic*`, `` `code` `` and `[text](url)` are
//! rendered, in that order, each span on one line and as short as possible
//! (the earliest closing delimiter ends it). Links to other than web, mail
//! and Matrix schemes stay as their source text.

use vstd::prelude::*;
use vstd::string::StringSliceAdditionalSpecFns;

use crate::text::{
    ascii_lower_char, chars_of, is_white, is_white_exec, lead_ws, matches_at, matches_at_exec,
    push_all, push_str, slice_vec, string_from_chars, trim_start,
};

verus! {

// ----------------------------------------------------------------------
// Escaping
// ----------------------------------------------------------------------

/// The escape of one character.
pub open spec fn escape_char(c: char) -> Seq<char> {
    if c == '&' {
        "&amp;"@
    } else if c == '<' {
        "&lt;"@
    } else if c == '>' {
        "&gt;"@
    } else if c == '"' {
        "&quot;"@
    } else if c == '\'' {
        "&#39;"@
    } else {
        seq![c]
    }
}

/// `s` with `& < > " '` replaced by their HTML entities.
pub open spec fn escape_spec(s: Seq<char>) -> Seq<char>
    decreases s.len(),
{
    if s.len() == 0 {
        seq![]
    } else {
        escape_spec(s.drop_last()) + escape_char(s.last())
    }
}

fn push_escaped(v: &mut Vec<char>, c: char)
    ensures
        final(v)@ == old(v)@ + escape_char(c),
{
    if c == '&' {
        push_str(v, "&amp;");
    } else if c == '<' {
        push_str(v, "&lt;");
    } else if c == '>' {
        push_str(v, "&gt;");
    } else if c == '"' {
        push_str(v, "&quot;");
    } else if c == '\'' {
        push_str(v, "&#39;");
    } else {
        v.push(c);
        assert(v@ =~= old(v)@ + seq![c]);
    }
}

fn escape_vec(s: &Vec<char>) -> (r: Vec<char>)
    ensures
        r@ == escape_spec(s@),
{
    let mut r: Vec<char> = Vec::new();
    for i in 0..s.len()
        invariant
            r@ == escape_spec(s@.take(i as int)),
    {
        assert(s@.take(i + 1).drop_last() =~= s@.take(i as int));
        push_escaped(&mut r, s[i]);
    }
    assert(s@.take(s@.len() as int) =~= s@);
    r
}

/// Escapes text for inclusion in HTML.
pub fn escape_html(s: &str) -> (r: String)
    ensures
        r@ == escape_spec(s@),
{
    let r = escape_vec(&chars_of(s));
    string_from_chars(r.as_slice())
}

// ----------------------------------------------------------------------
// Link schemes
// ----------------------------------------------------------------------

pub open spec fn is_control(c: char) -> bool {
    c < ' ' || c == '\u{7f}'
}

pub open spec fn is_scheme_sep(c: char) -> bool {
    c == ':' || c == '/' || c == '?' || c == '#'
}

/// The length of the part of `t` before its first `: / ? #`.
pub open spec fn head_len(t: Seq<char>) -> int {
    if exists|i: int| 0 <= i < t.len() && is_scheme_sep(#[trigger] t[i]) {
        choose|i: int| 0 <= i < t.len() && is_scheme_sep(#[trigger] t[i]) && forall|k: int| 0 <= k < i ==> !is_scheme_sep(#[trigger] t[k])
    } else {
        t.len() as int
    }
}

pub open spec fn is_scheme_char(c: char) -> bool {
    ('a' <= c && c <= 'z') || ('A' <= c && c <= 'Z') || ('0' <= c && c <= '9') || c == '+' || c == '-' || c == '.'
}

/// `t` starts with a URL scheme: a letter, then letters, digits, `+ - .`,
/// then `:`.
pub open spec fn has_scheme(t: Seq<char>) -> bool {
    let h = head_len(t);
    &&& h < t.len()
    &&& t[h] == ':'
    &&& h > 0
    &&& (('a' <= t[0] && t[0] <= 'z') || ('A' <= t[0] && t[0] <= 'Z'))
    &&& forall|k: int| 0 <= k < h ==> is_scheme_char(#[trigger] t[k])
}

/// `t` starts with the lowercase ASCII `p`, ignoring ASCII case.
pub open spec fn ci_prefix(t: Seq<char>, p: Seq<char>) -> bool {
    p.len() <= t.len() && forall|k: int| 0 <= k < p.len() ==> ascii_lower_char(#[trigger] t[k]) == p[k]
}

/// Whether a link target may become a link: no control characters; a URL
/// with a scheme only for `https:`, `http:`, `mailto:` and `matrix:`
/// (any case); a relative one when it has no whitespace.
pub open spec fn allowed_link_spec(u: Seq<char>) -> bool {
    if exists|i: int| 0 <= i < u.len() && is_control(#[trigger] u[i]) {
        false
    } else {
        let t = trim_start(u);
        if !has_scheme(t) {
            !exists|i: int| 0 <= i < t.len() && is_white(#[trigger] t[i])
        } else {
            ci_prefix(t, "https://"@) || ci_prefix(t, "http://"@) || ci_prefix(t, "mailto:"@) || ci_prefix(t, "matrix:"@)
        }
    }
}

/// The scheme check compares byte prefixes of 8 and 7 bytes; it needs those
/// offsets to fall between characters.
pub open spec fn scheme_check_defined(u: Seq<char>) -> bool {
    let t = trim_start(u);
    let b = vstd::utf8::encode_utf8(t);
    (forall|i: int| 0 <= i < u.len() ==> !is_control(#[trigger] u[i])) && has_scheme(t) ==> {
        &&& b.len() >= 8 ==> vstd::utf8::is_char_boundary(b, 8)
        &&& b.len() >= 7 ==> vstd::utf8::is_char_boundary(b, 7)
    }
}

fn ci_prefix_exec(t: &Vec<char>, p: &str) -> (r: bool)
    requires
        forall|k: int| 0 <= k < p@.len() ==> ascii_lower_char(#[trigger] p@[k]) == p@[k],
    ensures
        r == ci_prefix(t@, p@),
{
    let pv = chars_of(p);
    if pv.len() > t.len() {
        return false;
    }
    for k in 0..pv.len()
        invariant
            pv@ == p@,
            pv@.len() <= t@.len(),
            forall|j: int| 0 <= j < k ==> ascii_lower_char(#[trigger] t@[j]) == pv@[j],
    {
        if crate::text::ascii_lower_char_exec(t[k]) != pv[k] {
            return false;
        }
    }
    true
}

fn has_control_exec(u: &Vec<char>) -> (r: bool)
    ensures
        r == exists|i: int| 0 <= i < u@.len() && is_control(#[trigger] u@[i]),
{
    for i in 0..u.len()
        invariant
            forall|k: int| 0 <= k < i ==> !is_control(#[trigger] u@[k]),
    {
        if u[i] < ' ' || u[i] == '\u{7f}' {
            assert(is_control(u@[i as int]));
            return true;
        }
    }
    false
}

fn has_white_exec(t: &Vec<char>) -> (r: bool)
    ensures
        r == exists|i: int| 0 <= i < t@.len() && is_white(#[trigger] t@[i]),
{
    for i in 0..t.len()
        invariant
            forall|j: int| 0 <= j < i ==> !is_white(#[trigger] t@[j]),
    {
        if is_white_exec(t[i]) {
            return true;
        }
    }
    false
}

fn has_scheme_exec(t: &Vec<char>) -> (r: bool)
    ensures
        r == has_scheme(t@),
{
    let mut h: usize = 0;
    while h < t.len() && !(t[h] == ':' || t[h] == '/' || t[h] == '?' || t[h] == '#')
        invariant
            h <= t@.len(),
            forall|k: int| 0 <= k < h ==> !is_scheme_sep(#[trigger] t@[k]),
        decreases t@.len() - h,
    {
        h = h + 1;
    }
    proof {
        if h < t@.len() {
            assert(is_scheme_sep(t@[h as int]));
            assert forall|q: int| 0 <= q < t@.len() && is_scheme_sep(#[trigger] t@[q]) && (forall|k: int| 0 <= k < q ==> !is_scheme_sep(#[trigger] t@[k])) implies q == h by {
                if q > h {
                    assert(!is_scheme_sep(t@[h as int]));
                }
            }
        }
        assert(head_len(t@) == h);
    }
    if !(h < t.len() && t[h] == ':' && h > 0) {
        return false;
    }
    let c0 = t[0];
    if !(('a' <= c0 && c0 <= 'z') || ('A' <= c0 && c0 <= 'Z')) {
        return false;
    }
    let mut k: usize = 0;
    while k < h
        invariant
            h <= t@.len(),
            k <= h,
            head_len(t@) == h,
            forall|j: int| 0 <= j < k ==> is_scheme_char(#[trigger] t@[j]),
        decreases h - k,
    {
        let c = t[k];
        if !(('a' <= c && c <= 'z') || ('A' <= c && c <= 'Z') || ('0' <= c && c <= '9') || c == '+' || c == '-' || c == '.') {
            assert(!is_scheme_char(t@[k as int]));
            return false;
        }
        k = k + 1;
    }
    true
}

/// Whether a link target may become a link (see `allowed_link_spec`).
#[verifier::rlimit(40)]
pub fn is_allowed_link_scheme(url: &str) -> (r: bool)
    requires
        scheme_check_defined(url@),
    ensures
        r == allowed_link_spec(url@),
{
    let u = chars_of(url);
    if has_control_exec(&u) {
        return false;
    }
    let (a, _) = crate::text::trim_bounds(&u);
    let t = slice_vec(&u, a, u.len());
    assert(t@ == trim_start(url@));
    if !has_scheme_exec(&t) {
        return !has_white_exec(&t);
    }
    proof {
        reveal_strlit("https://");
        reveal_strlit("http://");
        reveal_strlit("mailto:");
        reveal_strlit("matrix:");
    }
    ci_prefix_exec(&t, "https://") || ci_prefix_exec(&t, "http://") || ci_prefix_exec(&t, "mailto:") || ci_prefix_exec(&t, "matrix:")
}

// ----------------------------------------------------------------------
// Spans
// ----------------------------------------------------------------------

/// A span opened at `start - d.len()` can close at `q`: its content
/// `s[start..q]` is nonempty and on one line, and `d` follows it.
pub open spec fn close_ok(s: Seq<char>, start: int, q: int, d: Seq<char>) -> bool {
    &&& start < q
    &&& matches_at(s, q, d)
    &&& forall|k: int| start <= k < q ==> #[trigger] s[k] != '\n'
}

/// `q` is the earliest place the span can close.
pub open spec fn first_close(s: Seq<char>, start: int, q: int, d: Seq<char>) -> bool {
    &&& close_ok(s, start, q, d)
    &&& forall|q2: int| start < q2 < q ==> !#[trigger] close_ok(s, start, q2, d)
}

pub open spec fn can_close(s: Seq<char>, start: int, d: Seq<char>) -> bool {
    exists|q: int| first_close(s, start, q, d)
}

pub open spec fn close_of(s: Seq<char>, start: int, d: Seq<char>) -> int {
    choose|q: int| first_close(s, start, q, d)
}

proof fn lemma_first_close_unique(s: Seq<char>, start: int, d: Seq<char>, q1: int, q2: int)
    requires
        first_close(s, start, q1, d),
        first_close(s, start, q2, d),
    ensures
        q1 == q2,
{
    if q1 < q2 {
        assert(!close_ok(s, start, q1, d));
    } else if q2 < q1 {
        assert(!close_ok(s, start, q2, d));
    }
}

/// Where the span whose content starts at `start` closes, if anywhere.
fn find_close(s: &Vec<char>, start: usize, d: &Vec<char>) -> (r: Option<usize>)
    requires
        d@.len() > 0,
        !d@.contains('\n'),
        start <= s@.len(),
    ensures
        r matches Some(q) ==> first_close(s@, start as int, q as int, d@),
        r is None ==> !can_close(s@, start as int, d@),
{
    if start >= s.len() {
        proof {
            assert forall|q3: int| !first_close(s@, start as int, q3, d@) by {}
        }
        return None;
    }
    let mut q: usize = start + 1;
    while q < s.len()
        invariant
            start < q,
            start <= s@.len(),
            forall|q2: int| start < q2 < q ==> !#[trigger] close_ok(s@, start as int, q2, d@),
            forall|k: int| start <= k < q - 1 ==> #[trigger] s@[k] != '\n',
        decreases s@.len() + 1 - q,
    {
        if s[q - 1] == '\n' {
            proof {
                assert forall|q3: int| !first_close(s@, start as int, q3, d@) by {
                    if first_close(s@, start as int, q3, d@) && q3 >= q {
                        assert(s@[q - 1] != '\n');
                    }
                }
            }
            return None;
        }
        if matches_at_exec(s, q, d) {
            return Some(q);
        }
        q = q + 1;
    }
    proof {
        assert forall|q3: int| !first_close(s@, start as int, q3, d@) by {
            if first_close(s@, start as int, q3, d@) {
                assert(q3 < q);
            }
        }
    }
    None
}

/// Every span `d ... d` replaced by `pre ... post`, scanning from `i`.
pub open spec fn spans_spec(s: Seq<char>, i: int, d: Seq<char>, pre: Seq<char>, post: Seq<char>) -> Seq<char>
    decreases s.len() - i,
{
    if i >= s.len() || i < 0 || d.len() == 0 {
        seq![]
    } else if matches_at(s, i, d) && can_close(s, i + d.len(), d) {
        let q = close_of(s, i + d.len(), d);
        if q + d.len() > i {
            pre + s.subrange(i + d.len(), q) + post + spans_spec(s, q + d.len(), d, pre, post)
        } else {
            seq![]
        }
    } else {
        seq![s[i]] + spans_spec(s, i + 1, d, pre, post)
    }
}

proof fn lemma_spans_unfold(s: Seq<char>, i: int, d: Seq<char>, pre: Seq<char>, post: Seq<char>)
    requires
        0 <= i < s.len(),
        d.len() > 0,
    ensures
        spans_spec(s, i, d, pre, post) == if matches_at(s, i, d) && can_close(s, i + d.len(), d) {
            let q = close_of(s, i + d.len(), d);
            pre + s.subrange(i + d.len(), q) + post + spans_spec(s, q + d.len(), d, pre, post)
        } else {
            seq![s[i]] + spans_spec(s, i + 1, d, pre, post)
        },
{
    if matches_at(s, i, d) && can_close(s, i + d.len(), d) {
        let q = close_of(s, i + d.len(), d);
        assert(first_close(s, i + d.len(), q, d));
    }
}

fn render_spans(s: &Vec<char>, d: &str, pre: &str, post: &str) -> (r: Vec<char>)
    requires
        d@.len() > 0,
        !d@.contains('\n'),
    ensures
        r@ == spans_spec(s@, 0, d@, pre@, post@),
{
    let dv = chars_of(d);
    let mut out: Vec<char> = Vec::new();
    let mut i: usize = 0;
    while i < s.len()
        invariant
            dv@ == d@,
            d@.len() > 0,
            !d@.contains('\n'),
            i <= s@.len(),
            out@ + spans_spec(s@, i as int, d@, pre@, post@) == spans_spec(s@, 0, d@, pre@, post@),
        decreases s@.len() - i,
    {
        proof {
            lemma_spans_unfold(s@, i as int, d@, pre@, post@);
        }
        let mut done = false;
        if matches_at_exec(s, i, &dv) {
            let start = i + dv.len();
            match find_close(s, start, &dv) {
                Some(q) => {
                    proof {
                        assert(can_close(s@, start as int, d@));
                        lemma_first_close_unique(s@, start as int, d@, q as int, close_of(s@, start as int, d@));
                    }
                    let ghost before = out@;
                    push_str(&mut out, pre);
                    let content = slice_vec(s, start, q);
                    push_all(&mut out, &content);
                    push_str(&mut out, post);
                    assert(out@ =~= before + pre@ + s@.subrange(start as int, q as int) + post@);
                    i = q + dv.len();
                    done = true;
                },
                None => {},
            }
        }
        if !done {
            let ghost before = out@;
            out.push(s[i]);
            assert(out@ =~= before + seq![s@[i as int]]);
            i = i + 1;
        }
    }
    assert(spans_spec(s@, i as int, d@, pre@, post@) =~= seq![]);
    assert(out@ =~= out@ + Seq::<char>::empty());
    out
}

// ----------------------------------------------------------------------
// Links
// ----------------------------------------------------------------------

/// A link opened by `[` at `p` can have its text end at `a`: the text is
/// nonempty and on one line, `](` follows, and the target closes with `)`.
pub open spec fn link_ok(s: Seq<char>, p: int, a: int) -> bool {
    &&& p + 1 < a
    &&& matches_at(s, a, "]("@)
    &&& forall|k: int| p + 1 <= k < a ==> #[trigger] s[k] != '\n'
    &&& can_close(s, a + 2, ")"@)
}

/// `a` is the earliest end of the link text.
pub open spec fn first_link(s: Seq<char>, p: int, a: int) -> bool {
    &&& link_ok(s, p, a)
    &&& forall|a2: int| p + 1 < a2 < a ==> !#[trigger] link_ok(s, p, a2)
}

pub open spec fn can_link(s: Seq<char>, p: int) -> bool {
    0 <= p < s.len() && s[p] == '[' && exists|a: int| first_link(s, p, a)
}

pub open spec fn text_end(s: Seq<char>, p: int) -> int {
    choose|a: int| first_link(s, p, a)
}

proof fn lemma_first_link_unique(s: Seq<char>, p: int, a1: int, a2: int)
    requires
        first_link(s, p, a1),
        first_link(s, p, a2),
    ensures
        a1 == a2,
{
    if a1 < a2 {
        assert(!link_ok(s, p, a1));
    } else if a2 < a1 {
        assert(!link_ok(s, p, a2));
    }
}

/// A link as HTML, or as its own source when its target is not allowed.
pub open spec fn link_html(text: Seq<char>, url: Seq<char>) -> Seq<char> {
    if allowed_link_spec(url) {
        "<a href=\""@ + url + "\" target=\"_blank\" rel=\"noopener\">"@ + text + "</a>"@
    } else {
        "["@ + text + "]("@ + url + ")"@
    }
}

/// Every link rendered, scanning from `i`.
pub open spec fn links_spec(s: Seq<char>, i: int) -> Seq<char>
    decreases s.len() - i,
{
    if i >= s.len() || i < 0 {
        seq![]
    } else if can_link(s, i) {
        let a = text_end(s, i);
        let b = close_of(s, a + 2, ")"@);
        if i < b + 1 <= s.len() {
            link_html(s.subrange(i + 1, a), s.subrange(a + 2, b)) + links_spec(s, b + 1)
        } else {
            seq![]
        }
    } else {
        seq![s[i]] + links_spec(s, i + 1)
    }
}

/// Every link target met scanning from `i` can be checked.
pub open spec fn links_checkable(s: Seq<char>, i: int) -> bool
    decreases s.len() - i,
{
    if i >= s.len() || i < 0 {
        true
    } else if can_link(s, i) {
        let a = text_end(s, i);
        let b = close_of(s, a + 2, ")"@);
        if i < b + 1 <= s.len() {
            scheme_check_defined(s.subrange(a + 2, b)) && links_checkable(s, b + 1)
        } else {
            true
        }
    } else {
        links_checkable(s, i + 1)
    }
}

/// Where the text of a link opened at `p` ends, and where its target does.
fn find_link(s: &Vec<char>, p: usize) -> (r: Option<(usize, usize)>)
    requires
        p < s@.len(),
        s@[p as int] == '[',
    ensures
        r matches Some((a, b)) ==> first_link(s@, p as int, a as int) && first_close(s@, a + 2, b as int, ")"@),
        r is None ==> !can_link(s@, p as int),
{
    let close = chars_of(")");
    let open = chars_of("](");
    proof {
        reveal_strlit(")");
    }
    if s.len() - p < 2 {
        proof {
            assert forall|a3: int| !first_link(s@, p as int, a3) by {}
        }
        return None;
    }
    let mut a: usize = p + 2;
    while a < s.len()
        invariant
            p < s@.len(),
            s@[p as int] == '[',
            close@ == ")"@,
            open@ == "]("@,
            ")"@ =~= seq![')'],
            p + 2 <= a,
            forall|a2: int| p + 1 < a2 < a ==> !#[trigger] link_ok(s@, p as int, a2),
            forall|k: int| p + 1 <= k < a - 1 ==> #[trigger] s@[k] != '\n',
        decreases s@.len() - a,
    {
        if s[a - 1] == '\n' {
            proof {
                assert forall|a3: int| !first_link(s@, p as int, a3) by {
                    if first_link(s@, p as int, a3) && a3 >= a {
                        assert(s@[a - 1] != '\n');
                    }
                }
            }
            return None;
        }
        if matches_at_exec(s, a, &open) {
            proof {
                reveal_strlit("](");
            }
            assert(a + 2 <= s@.len());
            match find_close(s, a + 2, &close) {
                Some(b) => {
                    return Some((a, b));
                },
                None => {},
            }
        }
        a = a + 1;
    }
    proof {
        assert forall|a3: int| !first_link(s@, p as int, a3) by {
            if first_link(s@, p as int, a3) {
                assert(a3 < a);
            }
        }
    }
    None
}

proof fn lemma_links_unfold(s: Seq<char>, i: int)
    requires
        0 <= i < s.len(),
    ensures
        can_link(s, i) ==> {
            let a = text_end(s, i);
            let b = close_of(s, a + 2, ")"@);
            &&& first_link(s, i, a)
            &&& first_close(s, a + 2, b, ")"@)
            &&& links_spec(s, i) == link_html(s.subrange(i + 1, a), s.subrange(a + 2, b)) + links_spec(s, b + 1)
            &&& links_checkable(s, i) == (scheme_check_defined(s.subrange(a + 2, b)) && links_checkable(s, b + 1))
        },
        !can_link(s, i) ==> links_spec(s, i) == seq![s[i]] + links_spec(s, i + 1)
            && links_checkable(s, i) == links_checkable(s, i + 1),
{
    reveal_strlit(")");
    if can_link(s, i) {
        let a = text_end(s, i);
        assert(first_link(s, i, a));
        let b = close_of(s, a + 2, ")"@);
        assert(first_close(s, a + 2, b, ")"@));
    }
}

fn render_links(s: &Vec<char>) -> (r: Vec<char>)
    requires
        links_checkable(s@, 0),
    ensures
        r@ == links_spec(s@, 0),
{
    let mut out: Vec<char> = Vec::new();
    let mut i: usize = 0;
    proof {
        reveal_strlit(")");
    }
    while i < s.len()
        invariant
            ")"@ =~= seq![')'],
            i <= s@.len(),
            links_checkable(s@, i as int),
            out@ + links_spec(s@, i as int) == links_spec(s@, 0),
        decreases s@.len() - i,
    {
        proof {
            lemma_links_unfold(s@, i as int);
        }
        let mut done = false;
        if s[i] == '[' {
            match find_link(s, i) {
                Some((a, b)) => {
                    proof {
                        assert(can_link(s@, i as int));
                        lemma_first_link_unique(s@, i as int, a as int, text_end(s@, i as int));
                        lemma_first_close_unique(s@, a + 2, ")"@, b as int, close_of(s@, a + 2, ")"@));
                    }
                    let text = slice_vec(s, i + 1, a);
                    let url = slice_vec(s, a + 2, b);
                    let url_s = string_from_chars(url.as_slice());
                    let ghost before = out@;
                    if is_allowed_link_scheme(url_s.as_str()) {
                        push_str(&mut out, "<a href=\"");
                        push_all(&mut out, &url);
                        push_str(&mut out, "\" target=\"_blank\" rel=\"noopener\">");
                        push_all(&mut out, &text);
                        push_str(&mut out, "</a>");
                    } else {
                        push_str(&mut out, "[");
                        push_all(&mut out, &text);
                        push_str(&mut out, "](");
                        push_all(&mut out, &url);
                        push_str(&mut out, ")");
                    }
                    assert(out@ =~= before + link_html(text@, url@));
                    i = b + 1;
                    done = true;
                },
                None => {},
            }
        }
        if !done {
            let ghost before = out@;
            out.push(s[i]);
            assert(out@ =~= before + seq![s@[i as int]]);
            i = i + 1;
        }
    }
    assert(links_spec(s@, i as int) =~= seq![]);
    assert(out@ =~= out@ + Seq::<char>::empty());
    out
}

// ----------------------------------------------------------------------
// The whole message
// ----------------------------------------------------------------------

/// The text once escaped and its bold, italic and code spans rendered.
pub open spec fn styled_spec(text: Seq<char>) -> Seq<char> {
    let s1 = spans_spec(escape_spec(text), 0, "**"@, "<strong>"@, "</strong>"@);
    let s2 = spans_spec(s1, 0, "*"@, "<em>"@, "</em>"@);
    spans_spec(s2, 0, "`"@, "<code>"@, "</code>"@)
}

/// A message rendered as HTML.
pub open spec fn render_spec(text: Seq<char>) -> Seq<char> {
    links_spec(styled_spec(text), 0)
}

/// Renders a message's markdown as HTML: escaped first, then bold, italic,
/// code and links.
pub fn render_markdown(text: &str) -> (r: String)
    requires
        links_checkable(styled_spec(text@), 0),
    ensures
        r@ == render_spec(text@),
{
    proof {
        reveal_strlit("**");
        reveal_strlit("*");
        reveal_strlit("`");
    }
    let s0 = escape_vec(&chars_of(text));
    let s1 = render_spans(&s0, "**", "<strong>", "</strong>");
    let s2 = render_spans(&s1, "*", "<em>", "</em>");
    let s3 = render_spans(&s2, "`", "<code>", "</code>");
    let s4 = render_links(&s3);
    string_from_chars(s4.as_slice())
}

/// Whether the scheme check of a link target is defined (see
/// `scheme_check_defined`).
pub fn scheme_check_defined_exec(url: &str) -> (r: bool)
    ensures
        r == scheme_check_defined(url@),
{
    let u = chars_of(url);
    if has_control_exec(&u) {
        return true;
    }
    let (a, _) = crate::text::trim_bounds(&u);
    let t = slice_vec(&u, a, u.len());
    if !has_scheme_exec(&t) {
        return true;
    }
    let ts = string_from_chars(t.as_slice());
    let st = ts.as_str();
    assert(t@ == trim_start(url@));
    assert(st@ == t@);
    assert(st.spec_bytes() == vstd::utf8::encode_utf8(trim_start(url@)));
    let n = st.as_bytes().len();
    let ok8 = n < 8 || st.is_char_boundary(8);
    let ok7 = n < 7 || st.is_char_boundary(7);
    proof {
        let b = vstd::utf8::encode_utf8(trim_start(url@));
        assert(forall|i: int| 0 <= i < url@.len() ==> !is_control(#[trigger] url@[i]));
        assert(has_scheme(trim_start(url@)));
        assert(ok8 == (b.len() >= 8 ==> vstd::utf8::is_char_boundary(b, 8)));
        assert(ok7 == (b.len() >= 7 ==> vstd::utf8::is_char_boundary(b, 7)));
    }
    ok8 && ok7
}

fn links_checkable_exec(s: &Vec<char>) -> (r: bool)
    ensures
        r == links_checkable(s@, 0),
{
    let mut i: usize = 0;
    proof {
        reveal_strlit(")");
    }
    while i < s.len()
        invariant
            ")"@ =~= seq![')'],
            i <= s@.len(),
            links_checkable(s@, i as int) == links_checkable(s@, 0),
        decreases s@.len() - i,
    {
        proof {
            lemma_links_unfold(s@, i as int);
        }
        let mut done = false;
        if s[i] == '[' {
            match find_link(s, i) {
                Some((a, b)) => {
                    proof {
                        assert(can_link(s@, i as int));
                        lemma_first_link_unique(s@, i as int, a as int, text_end(s@, i as int));
                        lemma_first_close_unique(s@, a + 2, ")"@, b as int, close_of(s@, a + 2, ")"@));
                    }
                    let url = slice_vec(s, a + 2, b);
                    let url_s = string_from_chars(url.as_slice());
                    if !scheme_check_defined_exec(url_s.as_str()) {
                        return false;
                    }
                    i = b + 1;
                    done = true;
                },
                None => {},
            }
        }
        if !done {
            i = i + 1;
        }
    }
    true
}

/// Whether `render_markdown` is defined on `text`: every link target it
/// checks can be checked.
pub fn can_render_markdown(text: &str) -> (r: bool)
    ensures
        r == links_checkable(styled_spec(text@), 0),
{
    proof {
        reveal_strlit("**");
        reveal_strlit("*");
        reveal_strlit("`");
    }
    let s0 = escape_vec(&chars_of(text));
    let s1 = render_spans(&s0, "**", "<strong>", "</strong>");
    let s2 = render_spans(&s1, "*", "<em>", "</em>");
    let s3 = render_spans(&s2, "`", "<code>", "</code>");
    links_checkable_exec(&s3)
}

// ----------------------------------------------------------------------
// What rendering guarantees
// ----------------------------------------------------------------------

/// `c` does not occur in `s`.
pub open spec fn free_of(s: Seq<char>, c: char) -> bool {
    forall|i: int| 0 <= i < s.len() ==> #[trigger] s[i] != c
}

proof fn lemma_escape_char_free(c: char, x: char)
    requires
        x == '<' || x == '>' || x == '"' || x == '\'',
    ensures
        free_of(escape_char(c), x),
{
    reveal_strlit("&amp;");
    reveal_strlit("&lt;");
    reveal_strlit("&gt;");
    reveal_strlit("&quot;");
    reveal_strlit("&#39;");
}

/// Escaped text holds no `<`, `>`, `"` or `'`: user text can neither open
/// a tag nor close an attribute.
pub proof fn law_escape_neutralizes_markup(s: Seq<char>, x: char)
    requires
        x == '<' || x == '>' || x == '"' || x == '\'',
    ensures
        free_of(escape_spec(s), x),
    decreases s.len(),
{
    if s.len() > 0 {
        law_escape_neutralizes_markup(s.drop_last(), x);
        lemma_escape_char_free(s.last(), x);
        let a = escape_spec(s.drop_last());
        let b = escape_char(s.last());
        assert forall|i: int| 0 <= i < (a + b).len() implies #[trigger] (a + b)[i] != x by {
            if i < a.len() {
                assert((a + b)[i] == a[i]);
            } else {
                assert((a + b)[i] == b[i - a.len()]);
            }
        }
    }
}

/// Rendering spans brings in no character that neither the text nor the
/// span's tags hold.
proof fn lemma_spans_free(s: Seq<char>, i: int, d: Seq<char>, pre: Seq<char>, post: Seq<char>, x: char)
    requires
        free_of(s, x),
        free_of(pre, x),
        free_of(post, x),
    ensures
        free_of(spans_spec(s, i, d, pre, post), x),
    decreases s.len() - i,
{
    if i >= s.len() || i < 0 || d.len() == 0 {
    } else {
        lemma_spans_unfold(s, i, d, pre, post);
        if matches_at(s, i, d) && can_close(s, i + d.len(), d) {
            let q = close_of(s, i + d.len(), d);
            assert(first_close(s, i + d.len(), q, d));
            lemma_spans_free(s, q + d.len(), d, pre, post, x);
            let mid = s.subrange(i + d.len(), q);
            let r = spans_spec(s, q + d.len(), d, pre, post);
            let all = pre + mid + post + r;
            assert forall|k: int| 0 <= k < all.len() implies #[trigger] all[k] != x by {
                if k < pre.len() {
                    assert(all[k] == pre[k]);
                } else if k < pre.len() + mid.len() {
                    assert(all[k] == mid[k - pre.len()]);
                    assert(mid[k - pre.len()] == s[i + d.len() + k - pre.len()]);
                } else if k < pre.len() + mid.len() + post.len() {
                    assert(all[k] == post[k - pre.len() - mid.len()]);
                } else {
                    assert(all[k] == r[k - pre.len() - mid.len() - post.len()]);
                }
            }
        } else {
            lemma_spans_free(s, i + 1, d, pre, post, x);
            let r = spans_spec(s, i + 1, d, pre, post);
            assert forall|k: int| 0 <= k < (seq![s[i]] + r).len() implies #[trigger] (seq![s[i]] + r)[k] != x by {
                if k > 0 {
                    assert((seq![s[i]] + r)[k] == r[k - 1]);
                }
            }
        }
    }
}

/// A message's text, once escaped and styled, holds no `"`: a link target
/// taken from it cannot close the `href` attribute it is placed in.
pub proof fn law_link_targets_cannot_close_attributes(text: Seq<char>)
    ensures
        free_of(styled_spec(text), '"'),
{
    reveal_strlit("<strong>");
    reveal_strlit("</strong>");
    reveal_strlit("<em>");
    reveal_strlit("</em>");
    reveal_strlit("<code>");
    reveal_strlit("</code>");
    law_escape_neutralizes_markup(text, '"');
    let s1 = spans_spec(escape_spec(text), 0, "**"@, "<strong>"@, "</strong>"@);
    lemma_spans_free(escape_spec(text), 0, "**"@, "<strong>"@, "</strong>"@, '"');
    let s2 = spans_spec(s1, 0, "*"@, "<em>"@, "</em>"@);
    lemma_spans_free(s1, 0, "*"@, "<em>"@, "</em>"@, '"');
    lemma_spans_free(s2, 0, "`"@, "<code>"@, "</code>"@, '"');
}

/// `javascript:` targets never become links, whatever their case, leading
/// whitespace or embedded control characters.
pub proof fn law_javascript_never_links(u: Seq<char>)
    requires
        ci_prefix(trim_start(u), "javascript:"@),
    ensures
        !allowed_link_spec(u),
{
    reveal_strlit("javascript:");
    reveal_strlit("https://");
    reveal_strlit("http://");
    reveal_strlit("mailto:");
    reveal_strlit("matrix:");
    let t = trim_start(u);
    if !exists|i: int| 0 <= i < u.len() && is_control(#[trigger] u[i]) {
        let p = "javascript:"@;
        assert forall|k: int| 0 <= k < 10 implies !is_scheme_sep(#[trigger] t[k]) && is_scheme_char(t[k]) by {
            assert(ascii_lower_char(t[k]) == p[k]);
        }
        assert(ascii_lower_char(t[10]) == p[10]);
        assert(t[10] == ':');
        assert(is_scheme_sep(t[10]));
        let h = head_len(t);
        assert(h == 10) by {
            let c = choose|i: int| 0 <= i < t.len() && is_scheme_sep(#[trigger] t[i]) && forall|k: int| 0 <= k < i ==> !is_scheme_sep(#[trigger] t[k]);
            assert(0 <= 10 < t.len() && is_scheme_sep(t[10]) && forall|k: int| 0 <= k < 10 ==> !is_scheme_sep(#[trigger] t[k]));
            if c < 10 {
                assert(!is_scheme_sep(t[c]));
            } else if c > 10 {
                assert(!is_scheme_sep(t[10]));
            }
        }
        assert(ascii_lower_char(t[0]) == 'j');
        assert(has_scheme(t));
        assert(!ci_prefix(t, "https://"@)) by {
            if ci_prefix(t, "https://"@) {
                assert(ascii_lower_char(t[0]) == "https://"@[0]);
            }
        }
        assert(!ci_prefix(t, "http://"@)) by {
            if ci_prefix(t, "http://"@) {
                assert(ascii_lower_char(t[0]) == "http://"@[0]);
            }
        }
        assert(!ci_prefix(t, "mailto:"@)) by {
            if ci_prefix(t, "mailto:"@) {
                assert(ascii_lower_char(t[0]) == "mailto:"@[0]);
            }
        }
        assert(!ci_prefix(t, "matrix:"@)) by {
            if ci_prefix(t, "matrix:"@) {
                assert(ascii_lower_char(t[0]) == "matrix:"@[0]);
            }
        }
    }
}

// ----------------------------------------------------------------------
// Tags
// ----------------------------------------------------------------------

/// A tag that rendering writes starts at `i`: a span tag, or the opening
/// or closing of a link.
pub open spec fn tag_at(s: Seq<char>, i: int) -> bool {
    ||| matches_at(s, i, "<strong>"@)
    ||| matches_at(s, i, "</strong>"@)
    ||| matches_at(s, i, "<em>"@)
    ||| matches_at(s, i, "</em>"@)
    ||| matches_at(s, i, "<code>"@)
    ||| matches_at(s, i, "</code>"@)
    ||| matches_at(s, i, "<a href=\""@)
    ||| matches_at(s, i, "</a>"@)
}

/// Every `<` of `s` opens one of the tags rendering writes.
pub open spec fn tags_only(s: Seq<char>) -> bool {
    forall|i: int| #![trigger s[i]] 0 <= i < s.len() && s[i] == '<' ==> tag_at(s, i)
}

/// A character that occurs in none of those tags.
pub open spec fn outside_tags(c: char) -> bool {
    &&& c != '<' && c != '/' && c != '>' && c != ' ' && c != '=' && c != '"'
    &&& c != 's' && c != 't' && c != 'r' && c != 'o' && c != 'n' && c != 'g'
    &&& c != 'e' && c != 'm' && c != 'c' && c != 'd' && c != 'a' && c != 'h' && c != 'f'
}

proof fn lemma_reveal_tags() 
    ensures
        "<strong>"@ == seq!['<', 's', 't', 'r', 'o', 'n', 'g', '>'],
        "</strong>"@ == seq!['<', '/', 's', 't', 'r', 'o', 'n', 'g', '>'],
        "<em>"@ == seq!['<', 'e', 'm', '>'],
        "</em>"@ == seq!['<', '/', 'e', 'm', '>'],
        "<code>"@ == seq!['<', 'c', 'o', 'd', 'e', '>'],
        "</code>"@ == seq!['<', '/', 'c', 'o', 'd', 'e', '>'],
        "<a href=\""@ == seq!['<', 'a', ' ', 'h', 'r', 'e', 'f', '=', '"'],
        "</a>"@ == seq!['<', '/', 'a', '>'],
{
    reveal_strlit("<strong>");
    reveal_strlit("</strong>");
    reveal_strlit("<em>");
    reveal_strlit("</em>");
    reveal_strlit("<code>");
    reveal_strlit("</code>");
    reveal_strlit("<a href=\"");
    reveal_strlit("</a>");
}

/// A tag that starts at `k`, before a character that occurs in no tag,
/// ends before it.
proof fn lemma_tag_before(s: Seq<char>, k: int, b: int)
    requires
        tag_at(s, k),
        k <= b < s.len(),
        outside_tags(s[b]),
    ensures
        tag_at(s.subrange(0, b), k),
{
    lemma_reveal_tags();
    let pre = s.subrange(0, b);
    assert forall|t: Seq<char>| #[trigger] matches_at(s, k, t) && (forall|j: int| 0 <= j < t.len() ==> !outside_tags(#[trigger] t[j])) implies matches_at(pre, k, t) by {
        if k + t.len() > b {
            assert(s.subrange(k, k + t.len())[b - k] == s[b]);
            assert(!outside_tags(t[b - k]));
        }
        assert(pre.subrange(k, k + t.len()) =~= s.subrange(k, k + t.len()));
    }
}

proof fn lemma_tag_shift(s: Seq<char>, a: int, b: int, k: int)
    requires
        0 <= a <= k <= b <= s.len(),
        tag_at(s.subrange(0, b), k),
    ensures
        tag_at(s.subrange(a, b), k - a),
{
    let pre = s.subrange(0, b);
    let sub = s.subrange(a, b);
    assert forall|t: Seq<char>| #[trigger] matches_at(pre, k, t) implies matches_at(sub, k - a, t) by {
        assert forall|j: int| 0 <= j < t.len() implies #[trigger] sub.subrange(k - a, k - a + t.len())[j] == pre.subrange(k, k + t.len())[j] by {
            assert(sub[k - a + j] == s[k + j]);
            assert(pre[k + j] == s[k + j]);
        }
        assert(sub.subrange(k - a, k - a + t.len()) =~= pre.subrange(k, k + t.len()));
    }
}

/// Cutting text at a character that occurs in no tag, or at its end,
/// keeps every `<` opening a tag.
proof fn lemma_tags_cut(s: Seq<char>, a: int, b: int)
    requires
        tags_only(s),
        0 <= a <= b <= s.len(),
        b == s.len() || outside_tags(s[b]),
    ensures
        tags_only(s.subrange(a, b)),
{
    let sub = s.subrange(a, b);
    assert forall|i: int| #![trigger sub[i]] 0 <= i < sub.len() && sub[i] == '<' implies tag_at(sub, i) by {
        assert(s[a + i] == '<');
        assert(tag_at(s, a + i));
        if b < s.len() {
            lemma_tag_before(s, a + i, b);
        } else {
            assert(s.subrange(0, b) =~= s);
        }
        lemma_tag_shift(s, a, b, a + i);
    }
}

proof fn lemma_tags_concat(x: Seq<char>, y: Seq<char>)
    requires
        tags_only(x),
        tags_only(y),
    ensures
        tags_only(x + y),
{
    let z = x + y;
    assert forall|i: int| #![trigger z[i]] 0 <= i < z.len() && z[i] == '<' implies tag_at(z, i) by {
        if i < x.len() {
            assert(z[i] == x[i]);
            assert forall|t: Seq<char>| #[trigger] matches_at(x, i, t) implies matches_at(z, i, t) by {
                assert(z.subrange(i, i + t.len()) =~= x.subrange(i, i + t.len()));
            }
        } else {
            assert(z[i] == y[i - x.len()]);
            assert(tag_at(y, i - x.len()));
            assert forall|t: Seq<char>| #[trigger] matches_at(y, i - x.len(), t) implies matches_at(z, i, t) by {
                assert(z.subrange(i, i + t.len()) =~= y.subrange(i - x.len(), i - x.len() + t.len()));
            }
        }
    }
}

/// The length of the tag starting at `i` (none: zero).
pub open spec fn tag_len(s: Seq<char>, i: int) -> int {
    if matches_at(s, i, "<strong>"@) {
        8
    } else if matches_at(s, i, "</strong>"@) {
        9
    } else if matches_at(s, i, "<em>"@) {
        4
    } else if matches_at(s, i, "</em>"@) {
        5
    } else if matches_at(s, i, "<code>"@) {
        6
    } else if matches_at(s, i, "</code>"@) {
        7
    } else if matches_at(s, i, "<a href=\""@) {
        9
    } else if matches_at(s, i, "</a>"@) {
        4
    } else {
        0
    }
}

/// A tag is made of tag characters only, and holds no `<` but its first.
proof fn lemma_tag_extent(s: Seq<char>, i: int)
    requires
        tag_at(s, i),
    ensures
        0 <= i,
        i + tag_len(s, i) <= s.len(),
        tag_len(s, i) >= 1,
        tags_only(s.subrange(i, i + tag_len(s, i))),
        forall|k: int| i <= k < i + tag_len(s, i) ==> !outside_tags(#[trigger] s[k]),
{
    lemma_reveal_tags();
    let t = s.subrange(i, i + tag_len(s, i));
    assert forall|k: int| i <= k < i + tag_len(s, i) implies !outside_tags(#[trigger] s[k]) by {
        assert(s[k] == t[k - i]);
    }
    assert forall|j: int| #![trigger t[j]] 0 <= j < t.len() && t[j] == '<' implies tag_at(t, j) by {
        assert(j == 0);
        assert(t.subrange(0, t.len() as int) =~= t);
    }
}

proof fn lemma_no_lt_tags_only(s: Seq<char>)
    requires
        forall|i: int| 0 <= i < s.len() ==> #[trigger] s[i] != '<',
    ensures
        tags_only(s),
{
}

/// Text that no span delimiter interrupts comes out of span rendering
/// as it is.
proof fn lemma_spans_plain_run(s: Seq<char>, i: int, j: int, d: Seq<char>, pre: Seq<char>, post: Seq<char>)
    requires
        0 <= i <= j <= s.len(),
        d.len() > 0,
        forall|k: int| i <= k < j ==> #[trigger] s[k] != d[0],
    ensures
        spans_spec(s, i, d, pre, post) == s.subrange(i, j) + spans_spec(s, j, d, pre, post),
    decreases j - i,
{
    if i < j {
        lemma_spans_unfold(s, i, d, pre, post);
        assert(!matches_at(s, i, d)) by {
            if matches_at(s, i, d) {
                assert(s.subrange(i, i + d.len())[0] == s[i]);
            }
        }
        lemma_spans_plain_run(s, i + 1, j, d, pre, post);
        assert(s.subrange(i, j) =~= seq![s[i]] + s.subrange(i + 1, j));
    } else {
        assert(s.subrange(i, j) =~= seq![]);
    }
}

/// Span rendering keeps every `<` opening a tag, when the text and the
/// span's tags do and the delimiter starts with no tag character.
proof fn lemma_spans_tags(s: Seq<char>, i: int, d: Seq<char>, pre: Seq<char>, post: Seq<char>)
    requires
        tags_only(s),
        tags_only(pre),
        tags_only(post),
        d.len() > 0,
        outside_tags(d[0]),
        0 <= i,
    ensures
        tags_only(spans_spec(s, i, d, pre, post)),
    decreases s.len() - i,
{
    if i >= s.len() {
        lemma_no_lt_tags_only(spans_spec(s, i, d, pre, post));
    } else {
        lemma_spans_unfold(s, i, d, pre, post);
        if matches_at(s, i, d) && can_close(s, i + d.len(), d) {
            let q = close_of(s, i + d.len(), d);
            assert(first_close(s, i + d.len(), q, d));
            assert(s.subrange(q, q + d.len())[0] == s[q]);
            lemma_tags_cut(s, i + d.len(), q);
            lemma_spans_tags(s, q + d.len(), d, pre, post);
            let mid = s.subrange(i + d.len(), q);
            lemma_tags_concat(pre, mid);
            lemma_tags_concat(pre + mid, post);
            lemma_tags_concat(pre + mid + post, spans_spec(s, q + d.len(), d, pre, post));
        } else if s[i] == '<' {
            lemma_tag_extent(s, i);
            let e = i + tag_len(s, i);
            lemma_spans_plain_run(s, i, e, d, pre, post);
            lemma_spans_tags(s, e, d, pre, post);
            lemma_tags_concat(s.subrange(i, e), spans_spec(s, e, d, pre, post));
        } else {
            lemma_spans_tags(s, i + 1, d, pre, post);
            lemma_no_lt_tags_only(seq![s[i]]);
            lemma_tags_concat(seq![s[i]], spans_spec(s, i + 1, d, pre, post));
        }
    }
}

/// Text without a `[` comes out of link rendering as it is.
proof fn lemma_links_plain_run(s: Seq<char>, i: int, j: int)
    requires
        0 <= i <= j <= s.len(),
        forall|k: int| i <= k < j ==> #[trigger] s[k] != '[',
    ensures
        links_spec(s, i) == s.subrange(i, j) + links_spec(s, j),
    decreases j - i,
{
    if i < j {
        lemma_links_unfold(s, i);
        lemma_links_plain_run(s, i + 1, j);
        assert(s.subrange(i, j) =~= seq![s[i]] + s.subrange(i + 1, j));
    } else {
        assert(s.subrange(i, j) =~= seq![]);
    }
}

proof fn lemma_link_html_tags(text: Seq<char>, url: Seq<char>)
    requires
        tags_only(text),
        tags_only(url),
    ensures
        tags_only(link_html(text, url)),
{
    lemma_reveal_tags();
    reveal_strlit("\" target=\"_blank\" rel=\"noopener\">");
    reveal_strlit("[");
    reveal_strlit("](");
    reveal_strlit(")");
    let open = "<a href=\""@;
    let mid = "\" target=\"_blank\" rel=\"noopener\">"@;
    let close = "</a>"@;
    assert(tags_only(open)) by {
        assert forall|j: int| #![trigger open[j]] 0 <= j < open.len() && open[j] == '<' implies tag_at(open, j) by {
            assert(open.subrange(0, open.len() as int) =~= open);
        }
    }
    assert(tags_only(close)) by {
        assert forall|j: int| #![trigger close[j]] 0 <= j < close.len() && close[j] == '<' implies tag_at(close, j) by {
            assert(close.subrange(0, close.len() as int) =~= close);
        }
    }
    lemma_no_lt_tags_only(mid);
    lemma_no_lt_tags_only("["@);
    lemma_no_lt_tags_only("]("@);
    lemma_no_lt_tags_only(")"@);
    if allowed_link_spec(url) {
        lemma_tags_concat(open, url);
        lemma_tags_concat(open + url, mid);
        lemma_tags_concat(open + url + mid, text);
        lemma_tags_concat(open + url + mid + text, close);
    } else {
        lemma_tags_concat("["@, text);
        lemma_tags_concat("["@ + text, "]("@);
        lemma_tags_concat("["@ + text + "]("@, url);
        lemma_tags_concat("["@ + text + "]("@ + url, ")"@);
    }
}

/// Link rendering keeps every `<` opening a tag.
proof fn lemma_links_tags(s: Seq<char>, i: int)
    requires
        tags_only(s),
        0 <= i,
    ensures
        tags_only(links_spec(s, i)),
    decreases s.len() - i,
{
    reveal_strlit("](");
    reveal_strlit(")");
    if i >= s.len() {
        lemma_no_lt_tags_only(links_spec(s, i));
    } else {
        lemma_links_unfold(s, i);
        if can_link(s, i) {
            let a = text_end(s, i);
            let b = close_of(s, a + 2, ")"@);
            assert(s.subrange(a, a + 2)[0] == s[a]);
            assert(s.subrange(b, b + 1)[0] == s[b]);
            lemma_tags_cut(s, i + 1, a);
            lemma_tags_cut(s, a + 2, b);
            lemma_link_html_tags(s.subrange(i + 1, a), s.subrange(a + 2, b));
            lemma_links_tags(s, b + 1);
            lemma_tags_concat(link_html(s.subrange(i + 1, a), s.subrange(a + 2, b)), links_spec(s, b + 1));
        } else if s[i] == '<' {
            lemma_tag_extent(s, i);
            let e = i + tag_len(s, i);
            assert forall|k: int| i <= k < e implies #[trigger] s[k] != '[' by {
                assert(!outside_tags(s[k]));
            }
            lemma_links_plain_run(s, i, e);
            lemma_links_tags(s, e);
            lemma_tags_concat(s.subrange(i, e), links_spec(s, e));
        } else {
            lemma_links_tags(s, i + 1);
            lemma_no_lt_tags_only(seq![s[i]]);
            lemma_tags_concat(seq![s[i]], links_spec(s, i + 1));
        }
    }
}

/// In a rendered message every `<` opens a tag that rendering wrote: a
/// bold, italic or code span's tag, or a link's opening or closing tag.
/// Whatever the text, it cannot open a tag of its own.
pub proof fn law_rendered_tags_are_generated(text: Seq<char>)
    ensures
        tags_only(render_spec(text)),
{
    lemma_reveal_tags();
    reveal_strlit("**");
    reveal_strlit("*");
    reveal_strlit("`");
    law_escape_neutralizes_markup(text, '<');
    let s0 = escape_spec(text);
    lemma_no_lt_tags_only(s0);
    let strong = "<strong>"@;
    let strong_end = "</strong>"@;
    let em = "<em>"@;
    let em_end = "</em>"@;
    let code = "<code>"@;
    let code_end = "</code>"@;
    assert forall|t: Seq<char>| t == strong || t == strong_end || t == em || t == em_end || t == code || t == code_end implies #[trigger] tags_only(t) by {
        assert forall|j: int| #![trigger t[j]] 0 <= j < t.len() && t[j] == '<' implies tag_at(t, j) by {
            assert(t.subrange(0, t.len() as int) =~= t);
        }
    }
    assert(tags_only(strong) && tags_only(strong_end) && tags_only(em) && tags_only(em_end) && tags_only(code) && tags_only(code_end));
    lemma_spans_tags(s0, 0, "**"@, strong, strong_end);
    let s1 = spans_spec(s0, 0, "**"@, strong, strong_end);
    lemma_spans_tags(s1, 0, "*"@, em, em_end);
    let s2 = spans_spec(s1, 0, "*"@, em, em_end);
    lemma_spans_tags(s2, 0, "`"@, code, code_end);
    lemma_links_tags(styled_spec(text), 0);
}

/// The quote at `i` belongs to a link's opening tag: it opens the `href`
/// value, or it is one of the quotes of the attributes after it.
pub open spec fn link_quote_at(s: Seq<char>, i: int) -> bool {
    let attrs = "\" target=\"_blank\" rel=\"noopener\">"@;
    ||| matches_at(s, i - 8, "<a href=\""@)
    ||| matches_at(s, i, attrs)
    ||| matches_at(s, i - 9, attrs)
    ||| matches_at(s, i - 16, attrs)
    ||| matches_at(s, i - 22, attrs)
    ||| matches_at(s, i - 31, attrs)
}

/// Every `"` of `s` belongs to a link's opening tag.
pub open spec fn quotes_in_links(s: Seq<char>) -> bool {
    forall|i: int| #![trigger s[i]] 0 <= i < s.len() && s[i] == '"' ==> link_quote_at(s, i)
}

proof fn lemma_matches_concat(x: Seq<char>, y: Seq<char>, k: int, t: Seq<char>)
    ensures
        matches_at(x, k, t) ==> matches_at(x + y, k, t),
        matches_at(y, k, t) ==> matches_at(x + y, k + x.len(), t),
{
    if matches_at(x, k, t) {
        assert((x + y).subrange(k, k + t.len()) =~= x.subrange(k, k + t.len()));
    }
    if matches_at(y, k, t) {
        assert((x + y).subrange(k + x.len(), k + x.len() + t.len()) =~= y.subrange(k, k + t.len()));
    }
}

proof fn lemma_quotes_concat(x: Seq<char>, y: Seq<char>)
    requires
        quotes_in_links(x),
        quotes_in_links(y),
    ensures
        quotes_in_links(x + y),
{
    let z = x + y;
    let open = "<a href=\""@;
    let attrs = "\" target=\"_blank\" rel=\"noopener\">"@;
    assert forall|i: int| #![trigger z[i]] 0 <= i < z.len() && z[i] == '"' implies link_quote_at(z, i) by {
        if i < x.len() {
            assert(z[i] == x[i]);
            assert(link_quote_at(x, i));
            lemma_matches_concat(x, y, i - 8, open);
            lemma_matches_concat(x, y, i, attrs);
            lemma_matches_concat(x, y, i - 9, attrs);
            lemma_matches_concat(x, y, i - 16, attrs);
            lemma_matches_concat(x, y, i - 22, attrs);
            lemma_matches_concat(x, y, i - 31, attrs);
        } else {
            let iy = i - x.len();
            assert(z[i] == y[iy]);
            assert(link_quote_at(y, iy));
            lemma_matches_concat(x, y, iy - 8, open);
            lemma_matches_concat(x, y, iy, attrs);
            lemma_matches_concat(x, y, iy - 9, attrs);
            lemma_matches_concat(x, y, iy - 16, attrs);
            lemma_matches_concat(x, y, iy - 22, attrs);
            lemma_matches_concat(x, y, iy - 31, attrs);
        }
    }
}

proof fn lemma_no_quote(s: Seq<char>)
    requires
        free_of(s, '"'),
    ensures
        quotes_in_links(s),
{
}

proof fn lemma_links_quotes(s: Seq<char>, i: int)
    requires
        free_of(s, '"'),
        0 <= i,
    ensures
        quotes_in_links(links_spec(s, i)),
    decreases s.len() - i,
{
    reveal_strlit("<a href=\"");
    reveal_strlit("\" target=\"_blank\" rel=\"noopener\">");
    reveal_strlit("</a>");
    reveal_strlit("[");
    reveal_strlit("](");
    reveal_strlit(")");
    if i >= s.len() {
        lemma_no_quote(links_spec(s, i));
    } else {
        lemma_links_unfold(s, i);
        if can_link(s, i) {
            let a = text_end(s, i);
            let b = close_of(s, a + 2, ")"@);
            let text = s.subrange(i + 1, a);
            let url = s.subrange(a + 2, b);
            assert(free_of(text, '"')) by {
                assert forall|k: int| 0 <= k < text.len() implies #[trigger] text[k] != '"' by {
                    assert(text[k] == s[i + 1 + k]);
                }
            }
            assert(free_of(url, '"')) by {
                assert forall|k: int| 0 <= k < url.len() implies #[trigger] url[k] != '"' by {
                    assert(url[k] == s[a + 2 + k]);
                }
            }
            lemma_no_quote(text);
            lemma_no_quote(url);
            let open = "<a href=\""@;
            let attrs = "\" target=\"_blank\" rel=\"noopener\">"@;
            assert(quotes_in_links(open)) by {
                assert(matches_at(open, 0, open)) by {
                    assert(open.subrange(0, 9) =~= open);
                }
            }
            assert(quotes_in_links(attrs)) by {
                assert(matches_at(attrs, 0, attrs)) by {
                    assert(attrs.subrange(0, 33) =~= attrs);
                }
            }
            lemma_no_quote("</a>"@);
            lemma_no_quote("["@);
            lemma_no_quote("]("@);
            lemma_no_quote(")"@);
            if allowed_link_spec(url) {
                lemma_quotes_concat(open, url);
                lemma_quotes_concat(open + url, attrs);
                lemma_quotes_concat(open + url + attrs, text);
                lemma_quotes_concat(open + url + attrs + text, "</a>"@);
            } else {
                lemma_quotes_concat("["@, text);
                lemma_quotes_concat("["@ + text, "]("@);
                lemma_quotes_concat("["@ + text + "]("@, url);
                lemma_quotes_concat("["@ + text + "]("@ + url, ")"@);
            }
            lemma_links_quotes(s, b + 1);
            lemma_quotes_concat(link_html(text, url), links_spec(s, b + 1));
        } else {
            lemma_links_quotes(s, i + 1);
            lemma_no_quote(seq![s[i]]);
            lemma_quotes_concat(seq![s[i]], links_spec(s, i + 1));
        }
    }
}

/// In a rendered message every `"` belongs to a link's opening tag that
/// rendering wrote: the quotes round its `href` value and its fixed
/// attributes. Whatever the text, it cannot add or close an attribute.
pub proof fn law_rendered_quotes_are_generated(text: Seq<char>)
    ensures
        quotes_in_links(render_spec(text)),
{
    law_link_targets_cannot_close_attributes(text);
    lemma_links_quotes(styled_spec(text), 0);
}

} // verus!
