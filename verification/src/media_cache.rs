//! The on-disk media cache's own rules: the file name each media request is
//! stored under, and which entries go when the cache outgrows its cap
//! (least recently used first).

use vstd::prelude::*;
use vstd::string::StringSliceAdditionalSpecFns;

use crate::store::{is_stable_order, sorts_before, stable_order};
use crate::text::{chars_of, dec, hex_fixed, push_dec, push_hex_fixed, push_str, string_from_chars};

verus! {

/// Default size cap: 500 MB.
pub const DEFAULT_CAP_BYTES: u64 = 500 * 1024 * 1024;

/// The FNV-1a prime.
pub const FNV_PRIME: u64 = 0x0000_0100_0000_01b3;

/// One FNV-1a round: xor the byte in, multiply modulo 2^64.
pub open spec fn fnv_step(h: u64, b: u8) -> u64 {
    (h ^ (b as u64)).wrapping_mul(FNV_PRIME)
}

/// FNV-1a of `bytes` from `seed`.
pub open spec fn fnv_fold(bytes: Seq<u8>, seed: u64) -> u64
    decreases bytes.len(),
{
    if bytes.len() == 0 {
        seed
    } else {
        fnv_step(fnv_fold(bytes.drop_last(), seed), bytes.last())
    }
}

/// FNV-1a over the UTF-8 bytes of `data`, starting from `seed`.
pub fn fnv1a(data: &str, seed: u64) -> (h: u64)
    ensures
        h == fnv_fold(data.spec_bytes(), seed),
{
    let bytes = data.as_bytes();
    let mut h = seed;
    for i in 0..bytes.len()
        invariant
            bytes@ == data.spec_bytes(),
            h == fnv_fold(bytes@.take(i as int), seed),
    {
        assert(bytes@.take(i + 1).drop_last() =~= bytes@.take(i as int));
        h = (h ^ (bytes[i] as u64)).wrapping_mul(FNV_PRIME);
    }
    assert(bytes@.take(bytes@.len() as int) =~= bytes@);
    h
}

/// The identity of a media request: the MXC URI, the serialized
/// encryption info and the thumbnail size, separated by U+0001.
pub open spec fn request_identity(mxc: Seq<char>, encrypted: Option<Seq<char>>, thumb: Option<(u32, u32)>) -> Seq<char> {
    let sep = seq!['\u{1}'];
    match (encrypted, thumb) {
        (Some(enc), Some((w, h))) => mxc + sep + enc + sep + dec(w as nat) + seq!['x'] + dec(h as nat),
        (Some(enc), None) => mxc + sep + enc,
        (None, Some((w, h))) => mxc + sep + sep + dec(w as nat) + seq!['x'] + dec(h as nat),
        (None, None) => mxc + sep + sep,
    }
}

pub open spec fn opt_str_view(o: Option<&str>) -> Option<Seq<char>> {
    match o {
        Some(s) => Some(s@),
        None => None,
    }
}

/// The cache key of a request: two FNV-1a hashes of its identity with
/// different seeds, as 32 lowercase hexadecimal digits.
pub open spec fn cache_key_spec(mxc: Seq<char>, encrypted: Option<Seq<char>>, thumb: Option<(u32, u32)>) -> Seq<char> {
    let bytes = vstd::utf8::encode_utf8(request_identity(mxc, encrypted, thumb));
    hex_fixed(fnv_fold(bytes, 0xcbf2_9ce4_8422_2325) as nat, 16) + hex_fixed(
        fnv_fold(bytes, 0x9e37_79b9_7f4a_7c15) as nat,
        16,
    )
}

pub open spec fn is_lower_hex(c: char) -> bool {
    ('0' <= c && c <= '9') || ('a' <= c && c <= 'f')
}

proof fn lemma_hex_fixed(n: nat, k: nat)
    ensures
        hex_fixed(n, k).len() == k,
        forall|i: int| 0 <= i < k ==> is_lower_hex(#[trigger] hex_fixed(n, k)[i]),
    decreases k,
{
    if k > 0 {
        lemma_hex_fixed(n / 16, (k - 1) as nat);
        let d = n % 16;
        let c = crate::text::hex_digit(d);
        if d < 10 {
            assert(c as int == 48 + d);
        } else {
            assert(c as int == 87 + d);
        }
        assert forall|i: int| 0 <= i < k implies is_lower_hex(#[trigger] hex_fixed(n, k)[i]) by {
            if i < k - 1 {
                assert(hex_fixed(n, k)[i] == hex_fixed(n / 16, (k - 1) as nat)[i]);
            }
        }
    }
}

/// The file-name-safe key a media request is stored under.
pub fn cache_key(mxc: &str, encrypted: Option<&str>, thumb: Option<(u32, u32)>) -> (k: String)
    ensures
        k@ == cache_key_spec(mxc@, opt_str_view(encrypted), thumb),
        k@.len() == 32,
        forall|i: int| 0 <= i < k@.len() ==> is_lower_hex(#[trigger] k@[i]),
{
    let mut id: Vec<char> = chars_of(mxc);
    match (encrypted, thumb) {
        (Some(enc), Some((w, h))) => {
            id.push('\u{1}');
            push_str(&mut id, enc);
            id.push('\u{1}');
            push_dec(&mut id, w as u64);
            id.push('x');
            push_dec(&mut id, h as u64);
        },
        (Some(enc), None) => {
            id.push('\u{1}');
            push_str(&mut id, enc);
        },
        (None, Some((w, h))) => {
            id.push('\u{1}');
            id.push('\u{1}');
            push_dec(&mut id, w as u64);
            id.push('x');
            push_dec(&mut id, h as u64);
        },
        (None, None) => {
            id.push('\u{1}');
            id.push('\u{1}');
        },
    }
    assert(id@ =~= request_identity(mxc@, opt_str_view(encrypted), thumb));
    let identity = string_from_chars(id.as_slice());
    let a = fnv1a(identity.as_str(), 0xcbf2_9ce4_8422_2325);
    let b = fnv1a(identity.as_str(), 0x9e37_79b9_7f4a_7c15);
    let mut out: Vec<char> = Vec::new();
    push_hex_fixed(&mut out, a, 16);
    push_hex_fixed(&mut out, b, 16);
    proof {
        lemma_hex_fixed(a as nat, 16);
        lemma_hex_fixed(b as nat, 16);
        let x = hex_fixed(a as nat, 16);
        let y = hex_fixed(b as nat, 16);
        assert(out@ =~= x + y);
        assert forall|i: int| 0 <= i < out@.len() implies is_lower_hex(#[trigger] out@[i]) by {
            if i < 16 {
                assert(out@[i] == x[i]);
            } else {
                assert(out@[i] == y[i - 16]);
            }
        }
    }
    string_from_chars(out.as_slice())
}

/// The file an entry is stored in: its key with a `.bin` extension.
pub fn entry_file_name(key: &str) -> (name: String)
    ensures
        name@ == key@ + ".bin"@,
{
    let mut v = chars_of(key);
    push_str(&mut v, ".bin");
    string_from_chars(v.as_slice())
}

/// The hidden file an entry is written to before it is renamed into place.
pub fn temp_file_name(key: &str) -> (name: String)
    ensures
        name@ == "."@ + key@ + ".tmp"@,
{
    let mut v = chars_of(".");
    push_str(&mut v, key);
    push_str(&mut v, ".tmp");
    string_from_chars(v.as_slice())
}

// ----------------------------------------------------------------------
// Eviction
// ----------------------------------------------------------------------

/// The sum of a list of sizes.
pub open spec fn total(sizes: Seq<u64>) -> nat
    decreases sizes.len(),
{
    if sizes.len() == 0 {
        0
    } else {
        total(sizes.drop_last()) + sizes.last() as nat
    }
}

/// The bytes a cache of entries of these sizes uses.
pub fn sum_sizes(sizes: &Vec<u64>) -> (t: u64)
    requires
        total(sizes@) <= u64::MAX,
    ensures
        t == total(sizes@),
{
    let mut t: u64 = 0;
    for i in 0..sizes.len()
        invariant
            total(sizes@) <= u64::MAX,
            t == total(sizes@.take(i as int)),
    {
        assert(sizes@.take(i + 1).drop_last() =~= sizes@.take(i as int));
        proof {
            lemma_total_prefix(sizes@, i + 1);
        }
        t = t + sizes[i];
    }
    assert(sizes@.take(sizes@.len() as int) =~= sizes@);
    t
}

proof fn lemma_total_prefix(s: Seq<u64>, k: int)
    requires
        0 <= k <= s.len(),
    ensures
        total(s.take(k)) <= total(s),
    decreases s.len() - k,
{
    if k < s.len() {
        lemma_total_prefix(s, k + 1);
        assert(s.take(k + 1).drop_last() =~= s.take(k));
    } else {
        assert(s.take(k) =~= s);
    }
}

/// How many bytes over `cap` the cache is (zero when within it).
pub fn excess_over_cap(sizes: &Vec<u64>, cap: u64) -> (e: u64)
    requires
        total(sizes@) <= u64::MAX,
    ensures
        e == if total(sizes@) <= cap { 0 } else { total(sizes@) - cap },
{
    let t = sum_sizes(sizes);
    if t <= cap { 0 } else { t - cap }
}

/// The order in which entries with these modification times are evicted:
/// oldest first, and in listing order between equally old entries.
pub fn eviction_order(mtimes: &Vec<u128>) -> (order: Vec<usize>)
    ensures
        is_stable_order(mtimes@, order@),
{
    stable_order(mtimes)
}

/// What is still to free after trying to delete an entry of `size` bytes:
/// a failed deletion frees nothing.
pub open spec fn left_to_free(excess: nat, size: nat, removed: bool) -> nat {
    if !removed {
        excess
    } else if size >= excess {
        0
    } else {
        (excess - size) as nat
    }
}

pub fn after_removal(excess: u64, size: u64, removed: bool) -> (e: u64)
    ensures
        e == left_to_free(excess as nat, size as nat, removed),
{
    if removed {
        excess.saturating_sub(size)
    } else {
        excess
    }
}

/// Bytes of the first `j` entries of an eviction order.
pub open spec fn freed_by(sizes: Seq<u64>, order: Seq<usize>, j: int) -> nat
    decreases j,
{
    if j <= 0 {
        0
    } else {
        freed_by(sizes, order, j - 1) + sizes[order[j - 1] as int] as nat
    }
}

/// What is left to free once the first `j` entries of the order were
/// deleted, each deletion succeeding (see [`after_removal`]).
pub open spec fn left_after(sizes: Seq<u64>, order: Seq<usize>, excess: nat, j: int) -> nat
    decreases j,
{
    if j <= 0 {
        excess
    } else {
        left_to_free(left_after(sizes, order, excess, j - 1), sizes[order[j - 1] as int] as nat, true)
    }
}

proof fn lemma_left_after(sizes: Seq<u64>, order: Seq<usize>, excess: nat, j: int)
    requires
        0 <= j,
    ensures
        left_after(sizes, order, excess, j) == if freed_by(sizes, order, j) >= excess {
            0
        } else {
            (excess - freed_by(sizes, order, j)) as nat
        },
    decreases j,
{
    if j > 0 {
        lemma_left_after(sizes, order, excess, j - 1);
    }
}

/// A sweep that deletes entries in eviction order while bytes are left to
/// free, every deletion succeeding, and stops after `k` of them, deletes
/// the oldest entries (each sorts before every entry it keeps) and just
/// enough of them: their bytes cover the excess unless every entry went,
/// and without the last one they would not.
pub proof fn law_sweep_deletes_oldest_just_enough(
    mtimes: Seq<u128>,
    sizes: Seq<u64>,
    order: Seq<usize>,
    excess: nat,
    k: int,
)
    requires
        is_stable_order(mtimes, order),
        sizes.len() == mtimes.len(),
        0 <= k <= order.len(),
        forall|j: int| 0 <= j < k ==> #[trigger] left_after(sizes, order, excess, j) > 0,
        k == order.len() || left_after(sizes, order, excess, k) == 0,
    ensures
        forall|a: int, b: int| 0 <= a < k <= b < order.len() ==> sorts_before(mtimes, #[trigger] order[a] as int, #[trigger] order[b] as int),
        k == order.len() || freed_by(sizes, order, k) >= excess,
        forall|j: int| 0 <= j < k ==> #[trigger] freed_by(sizes, order, j) < excess,
{
    if k < order.len() {
        lemma_left_after(sizes, order, excess, k);
    }
    assert forall|j: int| 0 <= j < k implies #[trigger] freed_by(sizes, order, j) < excess by {
        lemma_left_after(sizes, order, excess, j);
        assert(left_after(sizes, order, excess, j) > 0);
    }
}

} // verus!
