use jmfm::assign_ids;
use jmfm::structs::IdCounts;

#[test]
fn fresh_counter_reserves_contiguous_block() {
    let mut counter = IdCounts::new(3578, 100);
    let first = counter.reserve(12);
    assert_eq!(first, 100);
    assert_eq!(counter.data.map, 112);
    assert_eq!(counter.data_version, 3578);
    let ids = assign_ids(first, 12);
    let expect: Vec<i32> = (100..112).collect();
    assert_eq!(ids, expect);
    for (n, id) in ids.iter().enumerate() {
        assert_eq!(ids.iter().filter(|other| *other == id).count(), 1, "id {id} at {n} repeats");
    }
}

#[test]
fn reserve_zero_leaves_counter_unchanged() {
    let mut counter = IdCounts::new(1, 5);
    let first = counter.reserve(0);
    assert_eq!(first, 5);
    assert_eq!(counter.data.map, 5);
}

#[test]
fn recover_keeps_a_loaded_counter() {
    let loaded = IdCounts::new(5, 42);
    let counter = IdCounts::recover(Some(loaded), 0, 0);
    assert_eq!(counter.data_version, 5);
    assert_eq!(counter.data.map, 42);
}

#[test]
fn recover_falls_back_on_unreadable_counter() {
    // A corrupt or missing counter file decodes to None; the batch still
    // runs, seeded with the caller-supplied fallback id.
    let counter = IdCounts::recover(None, 3578, 7);
    assert_eq!(counter.data_version, 3578);
    assert_eq!(counter.data.map, 7);
}

#[test]
fn recover_fallback_then_batch_completes() {
    let mut counter = IdCounts::recover(None, 3578, 100);
    let first = counter.reserve(3);
    assert_eq!(first, 100);
    assert_eq!(counter.data.map, 103);
    assert_eq!(assign_ids(first, 3), vec![100, 101, 102]);
}
