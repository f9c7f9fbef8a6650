use fimble::bloom::GrowableBloom;

fn derived_digest(tag: u64) -> Vec<u8> {
    blake3::hash(&tag.to_le_bytes()).as_bytes().to_vec()
}

#[test]
fn inserted_elements_are_always_present() {
    let mut filter = GrowableBloom::new(100_000, 8);
    let mut elements = Vec::new();
    for tag in 0..200u64 {
        let digest = derived_digest(tag);
        filter.insert(&digest);
        elements.push(digest);
    }
    for digest in &elements {
        assert!(filter.contains(digest));
    }
}

#[test]
fn absent_elements_are_mostly_rejected() {
    let mut filter = GrowableBloom::new(100_000, 64);
    for tag in 0..64u64 {
        filter.insert(&derived_digest(tag));
    }
    for tag in 1000..1064u64 {
        assert!(!filter.contains(&derived_digest(tag)));
    }
}

#[test]
fn growth_keeps_old_elements() {
    // far more insertions than the filter was sized for, forcing new
    // generations
    let mut filter = GrowableBloom::new(1000, 4);
    for tag in 0..500u64 {
        filter.insert(&derived_digest(tag));
    }
    for tag in 0..500u64 {
        assert!(filter.contains(&derived_digest(tag)));
    }
}

#[test]
fn empirical_false_positive_rate_is_bounded() {
    let inverse = 1000u64;
    let inserted = 500usize;
    let mut filter = GrowableBloom::new(inverse, inserted);
    for tag in 0..inserted as u64 {
        filter.insert(&derived_digest(tag));
    }
    let trials = 10_000u64;
    let mut false_positives = 0u64;
    for tag in 100_000..100_000 + trials {
        if filter.contains(&derived_digest(tag)) {
            false_positives += 1;
        }
    }
    // target is one in a thousand; allow generous statistical tolerance
    assert!(false_positives <= trials / 100);
}

#[test]
fn rebuilt_filter_answers_from_stored_bits() {
    let mut filter = GrowableBloom::new(100_000, 16);
    for tag in 0..16u64 {
        filter.insert(&derived_digest(tag));
    }
    let rebuilt = GrowableBloom::from_parts(filter.probes, filter.gens);
    for tag in 0..16u64 {
        assert!(rebuilt.contains(&derived_digest(tag)));
    }
    for tag in 500..516u64 {
        assert!(!rebuilt.contains(&derived_digest(tag)));
    }
}

#[test]
fn sizing_follows_target_and_expected_count() {
    // one probe per halving of the target: 2^17 is the first power of
    // two at or above 100000
    let filter = GrowableBloom::new(100_000, 8);
    assert_eq!(filter.probes, 17);
    assert_eq!(filter.gens.len(), 1);
    assert_eq!(filter.gens[0].capacity, 8);
    assert_eq!(filter.gens[0].bits.len(), 2 * 17 * 8);

    let coarse = GrowableBloom::new(2, 0);
    assert_eq!(coarse.probes, 1);
    assert_eq!(coarse.gens[0].capacity, 1);
    assert_eq!(coarse.gens[0].bits.len(), 2);

    let extreme = GrowableBloom::new(u64::MAX, 4);
    assert_eq!(extreme.probes, 32);

    // a request beyond the per-generation bound is cut down
    let huge = GrowableBloom::new(1000, 2_000_000);
    assert_eq!(huge.gens[0].capacity, 0x10_0000);
}

#[test]
fn generations_double_as_they_fill() {
    let mut filter = GrowableBloom::new(1000, 1);
    assert_eq!(filter.gens.len(), 1);
    assert_eq!(filter.gens[0].capacity, 1);
    filter.insert(&derived_digest(0));
    assert_eq!(filter.gens.len(), 1);
    filter.insert(&derived_digest(1));
    assert_eq!(filter.gens.len(), 2);
    assert_eq!(filter.gens[1].capacity, 2);
    // the second generation takes two insertions before it fills
    filter.insert(&derived_digest(2));
    assert_eq!(filter.gens.len(), 2);
    filter.insert(&derived_digest(3));
    assert_eq!(filter.gens.len(), 3);
    assert_eq!(filter.gens[2].capacity, 4);
}

#[test]
fn empty_filter_contains_nothing() {
    let filter = GrowableBloom::new(1000, 16);
    for tag in 0..32u64 {
        assert!(!filter.contains(&derived_digest(tag)));
    }
}
