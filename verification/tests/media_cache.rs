use vesper::media_cache::{after_removal, cache_key, entry_file_name, eviction_order, excess_over_cap, fnv1a};

#[test]
fn keys_are_stable_and_distinct() {
    let a = cache_key("mxc://example/abc", None, None);
    let b = cache_key("mxc://example/abc", None, None);
    assert_eq!(a, b, "same request → same key");
    assert_ne!(a, cache_key("mxc://example/abd", None, None));
    assert_ne!(a, cache_key("mxc://example/abc", None, Some((64, 64))));
    assert_ne!(a, cache_key("mxc://example/abc", Some("{\"v\":\"key\"}"), None));
    assert!(a.chars().all(|c| c.is_ascii_hexdigit()), "fs-safe: {a}");
}

#[test]
fn fnv1a_matches_reference_vectors() {
    // FNV-1a 64-bit reference values.
    assert_eq!(fnv1a("", 0xcbf2_9ce4_8422_2325), 0xcbf2_9ce4_8422_2325);
    assert_eq!(fnv1a("a", 0xcbf2_9ce4_8422_2325), 0xaf63_dc4c_8601_ec8c);
    assert_eq!(fnv1a("foobar", 0xcbf2_9ce4_8422_2325), 0x8594_4171_f739_67e8);
}

#[test]
fn cache_key_is_two_fnv_hashes_of_the_identity() {
    let identity = "mxc://example/abc\u{1}\u{1}64x32";
    let expected = format!(
        "{:016x}{:016x}",
        fnv1a(identity, 0xcbf2_9ce4_8422_2325),
        fnv1a(identity, 0x9e37_79b9_7f4a_7c15)
    );
    assert_eq!(cache_key("mxc://example/abc", None, Some((64, 32))), expected);
    assert_eq!(cache_key("m", None, None).len(), 32);
}

#[test]
fn entry_files_use_bin_extension() {
    assert_eq!(entry_file_name("abc"), "abc.bin");
}

#[test]
fn eviction_removes_oldest_first() {
    // Three 60-byte entries, a oldest, c newest; a cap of 150 frees 30 bytes.
    let mtimes: Vec<u128> = vec![3000, 1000, 2000];
    let order = eviction_order(&mtimes);
    assert_eq!(order, vec![1, 2, 0]);
    let mut excess = excess_over_cap(&vec![60, 60, 60], 150);
    assert_eq!(excess, 30);
    let mut removed = Vec::new();
    for idx in order {
        if excess == 0 {
            break;
        }
        excess = after_removal(excess, 60, true);
        removed.push(idx);
    }
    assert_eq!(removed, vec![1]);
}

#[test]
fn eviction_keeps_listing_order_between_equal_times() {
    assert_eq!(eviction_order(&vec![5, 5, 1, 5]), vec![2, 0, 1, 3]);
}

#[test]
fn failed_removal_frees_nothing() {
    assert_eq!(after_removal(100, 60, false), 100);
    assert_eq!(after_removal(100, 160, true), 0);
    assert_eq!(after_removal(100, 60, true), 40);
}

#[test]
fn within_cap_means_no_excess() {
    assert_eq!(excess_over_cap(&vec![10, 20], 30), 0);
    assert_eq!(excess_over_cap(&vec![], 0), 0);
}
