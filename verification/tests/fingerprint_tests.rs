use limen::fingerprint::{
    current_space_fingerprint, fp_map_size, hash_mix, infer_active_space_index,
    insert_fingerprint_for_test, lookup_fingerprint_for_test, record_current_space_index,
    screen_fingerprint, SpaceFingerprints, WindowSample, FINGERPRINT_SEED,
};

#[test]
fn fp_map_insert_and_lookup() {
    let mut map = SpaceFingerprints::new();
    insert_fingerprint_for_test(&mut map, 12345, 2);
    assert_eq!(lookup_fingerprint_for_test(&map, 12345), Some(2));
}

#[test]
fn fp_map_overwrite() {
    let mut map = SpaceFingerprints::new();
    insert_fingerprint_for_test(&mut map, 999, 3);
    insert_fingerprint_for_test(&mut map, 999, 7);
    assert_eq!(lookup_fingerprint_for_test(&map, 999), Some(7));
}

fn reference_mix(mut h: u64, v: u64) -> u64 {
    h ^= v.wrapping_mul(0x9E3779B185EBCA87);
    h.rotate_left(27)
}

fn reference_fingerprint(windows: &[Option<WindowSample>], limit: usize) -> u64 {
    let mut h: u64 = 0xCBF29CE484222325;
    for w in windows.iter().take(limit).flatten() {
        if w.layer != 0 {
            continue;
        }
        let mut local: u64 = 0;
        for b in w.owner_name.as_bytes() {
            local = local.wrapping_mul(131).wrapping_add(*b as u64);
        }
        local = reference_mix(local, (w.pid as i64 as i128 as u128) as u64);
        h = reference_mix(h, local ^ (w.layer as i128 as u128) as u64);
    }
    h
}

fn sample(layer: i64, pid: i32, name: &str) -> Option<WindowSample> {
    Some(WindowSample { layer, pid, owner_name: name.to_string() })
}

#[test]
fn hash_mix_matches_rotate_left() {
    for (h, v) in [(0u64, 0u64), (1, 0), (0, 1), (u64::MAX, 12345), (0xdead_beef, u64::MAX)] {
        assert_eq!(hash_mix(h, v), reference_mix(h, v));
    }
    assert_eq!(hash_mix(1, 0), 1u64 << 27);
}

#[test]
fn empty_window_list_gives_seed() {
    assert_eq!(screen_fingerprint(&vec![], 6), FINGERPRINT_SEED);
}

#[test]
fn fingerprint_matches_reference_and_limit() {
    let windows = vec![
        sample(0, 501, "Safari"),
        None,
        sample(25, 77, "Dock"),
        sample(0, -3, "Finder"),
        sample(0, 9, "Terminal ✓"),
        sample(0, 12, ""),
        sample(0, 13, "Mail"),
        sample(0, 14, "Notes"),
    ];
    for limit in 0..10 {
        assert_eq!(screen_fingerprint(&windows, limit), reference_fingerprint(&windows, limit));
    }
    assert_eq!(current_space_fingerprint(&windows), reference_fingerprint(&windows, 6));
    // Windows beyond the sixth do not change the Space fingerprint.
    let mut more = windows;
    more.push(sample(0, 99, "Later"));
    assert_eq!(current_space_fingerprint(&more), reference_fingerprint(&more, 6));
}

#[test]
fn recorded_space_is_inferred_back() {
    let mut map = SpaceFingerprints::new();
    let space_a = vec![sample(0, 1, "Safari")];
    let space_b = vec![sample(0, 2, "Xcode")];
    assert_eq!(infer_active_space_index(&map, &space_a), None);
    record_current_space_index(&mut map, &space_a, 1);
    record_current_space_index(&mut map, &space_b, 4);
    assert_eq!(infer_active_space_index(&map, &space_a), Some(1));
    assert_eq!(infer_active_space_index(&map, &space_b), Some(4));
    assert_eq!(fp_map_size(&map), 2);
    record_current_space_index(&mut map, &space_a, 3);
    assert_eq!(infer_active_space_index(&map, &space_a), Some(3));
    assert_eq!(fp_map_size(&map), 2);
}

#[test]
fn size_grows_only_for_new_fingerprints() {
    let mut map = SpaceFingerprints::new();
    assert_eq!(fp_map_size(&map), 0);
    insert_fingerprint_for_test(&mut map, 7, 1);
    assert_eq!(fp_map_size(&map), 1);
    insert_fingerprint_for_test(&mut map, 8, 2);
    assert_eq!(fp_map_size(&map), 2);
    insert_fingerprint_for_test(&mut map, 7, 5);
    assert_eq!(fp_map_size(&map), 2);
    assert_eq!(lookup_fingerprint_for_test(&map, 7), Some(5));
    assert_eq!(fp_map_size(&map), 2);
}
