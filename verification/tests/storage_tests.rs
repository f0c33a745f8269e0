use analytic_engine::memtable::Memtable;
use analytic_engine::rows::{merge_rows, Row, SortedRows};
use analytic_engine::sst::{write_sst, MetaCache, SstMeta};

fn scanned(r: &[Row]) -> Vec<(u64, u64, Vec<u64>)> {
    r.iter().map(|row| (row.key, row.seq, row.cols.clone())).collect()
}

#[test]
fn scan_returns_one_version_per_key_the_greatest_at_or_below_the_bound() {
    let mut m = Memtable::new();
    // Interleaved puts to three keys, ascending sequence numbers.
    m.put(20, vec![200], 1);
    m.put(10, vec![100], 2);
    m.put(20, vec![201], 3);
    m.put(30, vec![300], 4);
    m.put(10, vec![101], 5);
    m.put(20, vec![202], 6);

    // At bound 4 the newest visible versions are seq 2 (key 10), 3 (key 20),
    // 4 (key 30).
    let r = m.scan(0, u64::MAX, 4);
    assert_eq!(
        scanned(&r),
        vec![(10, 2, vec![100]), (20, 3, vec![201]), (30, 4, vec![300])]
    );

    // At bound 6 every key shows its latest version.
    let r = m.scan(0, u64::MAX, 6);
    assert_eq!(
        scanned(&r),
        vec![(10, 5, vec![101]), (20, 6, vec![202]), (30, 4, vec![300])]
    );

    // A bound below every write sees nothing.
    let r = m.scan(0, u64::MAX, 0);
    assert!(r.is_empty());

    // The key range is honored.
    let r = m.scan(15, 25, 6);
    assert_eq!(scanned(&r), vec![(20, 6, vec![202])]);
}

#[test]
fn flush_round_trip_scans_identically() {
    let mut m = Memtable::new();
    m.put(1, vec![10, 11], 1);
    m.put(2, vec![20], 2);
    m.put(1, vec![12, 13], 3);

    let before = m.scan(0, u64::MAX, 3);
    let sst = write_sst(77, m.sorted_rows());
    let after = sst.scan(0, u64::MAX, 3);
    assert_eq!(scanned(&before), scanned(&after));
    assert_eq!(sst.meta.file_id, 77);
    assert_eq!(sst.meta.row_count, 3);
    assert_eq!(sst.meta.min_key, 1);
    assert_eq!(sst.meta.max_key, 2);
    assert_eq!(sst.meta.min_seq, 1);
    assert_eq!(sst.meta.max_seq, 3);

    // The scan below the newest version of key 1 also matches.
    let before = m.scan(0, u64::MAX, 2);
    let after = sst.scan(0, u64::MAX, 2);
    assert_eq!(scanned(&before), scanned(&after));
    assert_eq!(scanned(&after), vec![(1, 1, vec![10, 11]), (2, 2, vec![20])]);
}

#[test]
fn an_empty_flush_records_a_well_formed_footer() {
    let empty = SortedRows::new();
    let sst = write_sst(5, &empty);
    assert_eq!(sst.meta.row_count, 0);
    // The empty-file convention: all four bounds are zero, so every footer
    // satisfies min <= max and candidate selection accepts it.
    assert_eq!(sst.meta.min_key, 0);
    assert_eq!(sst.meta.max_key, 0);
    assert_eq!(sst.meta.min_seq, 0);
    assert_eq!(sst.meta.max_seq, 0);
    assert!(sst.scan(0, u64::MAX, u64::MAX).is_empty());
}

#[test]
fn merge_keeps_every_version_of_both_inputs() {
    let mut a = SortedRows::new();
    a.insert(1, 1, vec![10]);
    a.insert(2, 2, vec![20]);
    let mut b = SortedRows::new();
    b.insert(1, 3, vec![11]);
    b.insert(3, 4, vec![30]);

    let merged = merge_rows(&a, &b);
    let r = merged.scan(0, u64::MAX, u64::MAX);
    assert_eq!(
        scanned(&r),
        vec![(1, 3, vec![11]), (2, 2, vec![20]), (3, 4, vec![30])]
    );
    // At a bound before b's writes, a's versions win again.
    let r = merged.scan(0, u64::MAX, 2);
    assert_eq!(scanned(&r), vec![(1, 1, vec![10]), (2, 2, vec![20])]);
}

#[test]
fn meta_cache_never_exceeds_its_capacity_and_evicts_least_recently_used() {
    let meta = |id: u64| SstMeta {
        file_id: id,
        min_key: 0,
        max_key: 9,
        min_seq: 1,
        max_seq: 9,
        row_count: 1,
    };
    let mut cache = MetaCache::new(Some(2));
    cache.insert(meta(1));
    assert_eq!(cache.entry_count(), 1);
    cache.insert(meta(2));
    assert_eq!(cache.entry_count(), 2);
    // A third footer evicts the least recently used (file 1).
    cache.insert(meta(3));
    assert_eq!(cache.entry_count(), 2);
    assert!(cache.get(1).is_none());
    assert!(cache.get(2).is_some());
    assert!(cache.get(3).is_some());
    // Refreshing a cached footer does not grow the cache.
    cache.insert(meta(2));
    assert_eq!(cache.entry_count(), 2);
    // A long workload never pushes the count above the capacity.
    for id in 0..100 {
        cache.insert(meta(id % 7));
        assert!(cache.entry_count() <= 2);
    }
}

#[test]
fn a_read_counts_as_use_in_the_eviction_order() {
    let meta = |id: u64| SstMeta {
        file_id: id,
        min_key: 0,
        max_key: 9,
        min_seq: 1,
        max_seq: 9,
        row_count: 1,
    };
    let mut cache = MetaCache::new(Some(2));
    cache.insert(meta(1));
    cache.insert(meta(2));
    // Reading footer 1 refreshes its recency, so the next insert evicts
    // footer 2 instead.
    assert!(cache.touch(1));
    cache.insert(meta(3));
    assert!(cache.get(1).is_some());
    assert!(cache.get(2).is_none());
    assert!(cache.get(3).is_some());
    // A miss changes nothing.
    assert!(!cache.touch(9));
    assert_eq!(cache.entry_count(), 2);
}

#[test]
fn unbounded_meta_cache_keeps_everything() {
    let mut cache = MetaCache::new(None);
    for id in 0..10 {
        cache.insert(SstMeta {
            file_id: id,
            min_key: 0,
            max_key: 0,
            min_seq: 1,
            max_seq: 1,
            row_count: 0,
        });
    }
    assert_eq!(cache.entry_count(), 10);
    assert!(cache.get(0).is_some());
}

#[test]
fn memtable_size_estimate_grows_with_each_put() {
    let mut m = Memtable::new();
    assert_eq!(m.approximate_size(), 0);
    m.put(1, vec![1, 2, 3], 1);
    // 16 bytes of key/sequence overhead plus 8 per column value.
    assert_eq!(m.approximate_size(), 16 + 24);
    m.put(2, vec![], 2);
    assert_eq!(m.approximate_size(), 40 + 16);
    assert_eq!(m.last_sequence(), 2);
    assert_eq!(m.row_count(), 2);
}

#[test]
fn rows_sort_by_key_then_sequence_descending() {
    let mut s = SortedRows::new();
    s.insert(5, 2, vec![52]);
    s.insert(1, 9, vec![19]);
    s.insert(5, 7, vec![57]);
    s.insert(1, 4, vec![14]);
    let all: Vec<(u64, u64)> = s.rows.iter().map(|r| (r.key, r.seq)).collect();
    assert_eq!(all, vec![(1, 9), (1, 4), (5, 7), (5, 2)]);
    // Re-inserting an existing stamp replaces its column values.
    s.insert(1, 9, vec![190]);
    assert_eq!(s.len(), 4);
    let r = s.scan(1, 1, u64::MAX);
    assert_eq!(scanned(&r), vec![(1, 9, vec![190])]);
}
