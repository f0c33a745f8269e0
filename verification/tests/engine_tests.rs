use analytic_engine::compaction::{pick_candidates, run_compaction, CompactionTask, TaskState};
use analytic_engine::flush::{
    check_triggers, next_flush_retry, pick_flush_victim, FlushRetryDecision, FlushTrigger,
};
use analytic_engine::manifest::{checkpoint_due, Manifest, ManifestEdit, TableState};
use analytic_engine::memtable::Memtable;
use analytic_engine::recover::{
    plan_replay_batches, recover_rows, recover_table, recover_table_from_shard, ShardWalEntry,
};
use analytic_engine::rows::{merge_rows, Row};
use analytic_engine::space::Space;
use analytic_engine::sst::{write_sst, SstMeta};
use analytic_engine::table::Table;
use analytic_engine::wal::{split_batch, SplitError, TableWal, WriteOutcome, WriteRow};

fn scanned(r: &[Row]) -> Vec<(u64, u64, Vec<u64>)> {
    r.iter().map(|row| (row.key, row.seq, row.cols.clone())).collect()
}

#[test]
fn scenario_space_ceiling_triggers_a_flush_of_the_busier_older_table() {
    // space_write_buffer_size = 1000; two tables each reach 600 bytes.
    let mut space = Space::new(1, 1000);
    space.record_usage(10, 600);
    space.record_usage(11, 600);
    assert_eq!(space.total_bytes(), 1200);
    // The ceiling is passed, so a flush is triggered before any write is
    // rejected; among equals the older (first listed) table is the victim.
    let victim = space.flush_needed();
    assert_eq!(victim, Some(0));

    // Below the ceiling nothing triggers.
    let mut calm = Space::new(2, 1000);
    calm.record_usage(10, 400);
    calm.record_usage(11, 500);
    assert_eq!(calm.flush_needed(), None);

    // A zero ceiling disables the check entirely.
    let mut unbounded = Space::new(3, 0);
    unbounded.record_usage(10, u64::MAX);
    assert_eq!(unbounded.flush_needed(), None);
}

#[test]
fn scenario_split_write_reports_partial_success_exactly() {
    // max_bytes_per_write_batch = 100; five rows of 48 bytes each (16 bytes
    // of overhead + 4 columns) make a 240-byte write that splits into 3
    // appends: [2 rows, 2 rows, 1 row].
    let batch: Vec<WriteRow> = (0..5)
        .map(|i| WriteRow { key: i, cols: vec![i, i, i, i] })
        .collect();
    let bounds = split_batch(&batch, 100).unwrap();
    assert_eq!(bounds, vec![2, 4, 5]);

    // The backend acknowledges only the first append; the second fails. The
    // result is explicit partial success: 1 of 3 sub-batches durable.
    let mut wal = TableWal::new();
    let outcome = wal.append_split(&batch, &bounds, 1);
    assert_eq!(outcome, WriteOutcome::Partial { durable: 1, total: 3 });
    assert_eq!(wal.entries.len(), 2);
    assert_eq!(wal.entries[0].seq, 1);
    assert_eq!(wal.entries[1].seq, 2);

    // A fully acknowledged write is plain success, and an unacknowledged one
    // a plain failure.
    let mut wal2 = TableWal::new();
    assert_eq!(wal2.append_split(&batch, &bounds, 3), WriteOutcome::Success { sub_batches: 3 });
    assert_eq!(wal2.entries.len(), 5);
    let mut wal3 = TableWal::new();
    assert_eq!(wal3.append_split(&batch, &bounds, 0), WriteOutcome::Failed { sub_batches: 3 });
    assert_eq!(wal3.entries.len(), 0);
}

#[test]
fn scenario_shard_based_recovery_batches_and_matches_table_based() {
    // recover_mode = ShardBased, max_replay_tables_per_batch = 2, 5 tables on
    // one shard: recovery proceeds in batches of at most 2 tables.
    let plan = plan_replay_batches(5, 2);
    assert_eq!(plan, vec![2, 2, 1]);

    // One shared shard with the five tables' records interleaved.
    let mut shard: Vec<ShardWalEntry> = Vec::new();
    for round in 1..=3u64 {
        for table in 0..5u64 {
            shard.push(ShardWalEntry {
                table_id: table,
                seq: round,
                key: table * 10 + round,
                cols: vec![round],
            });
        }
    }
    // Each table's post-recovery memtable matches a reference table-based
    // run over its own records.
    for table in 0..5u64 {
        let from_shard = recover_table_from_shard(&shard, table, 0);
        let mut own_wal = TableWal::new();
        for round in 1..=3u64 {
            let _ = own_wal.append_row(table * 10 + round, vec![round]);
        }
        let reference = recover_table(&own_wal, 0);
        let a = from_shard.scan(0, u64::MAX, u64::MAX);
        let b = reference.scan(0, u64::MAX, u64::MAX);
        assert_eq!(scanned(&a), scanned(&b));
        assert_eq!(a.len(), 3);
    }
}

#[test]
fn replay_is_idempotent_across_restarts() {
    let mut wal = TableWal::new();
    let _ = wal.append_row(1, vec![10]);
    let _ = wal.append_row(2, vec![20]);
    let _ = wal.append_row(1, vec![11]);

    // The manifest says everything at or below sequence 1 is persisted.
    let watermark = 1;
    let first_restart = recover_table(&wal, watermark);
    let second_restart = recover_table(&wal, watermark);
    let a = first_restart.scan(0, u64::MAX, u64::MAX);
    let b = second_restart.scan(0, u64::MAX, u64::MAX);
    assert_eq!(scanned(&a), scanned(&b));
    // Only records above the watermark were applied.
    assert_eq!(scanned(&a), vec![(1, 3, vec![11]), (2, 2, vec![20])]);

    // Replaying the filtered records again over a fresh memtable gives the
    // same contents once more.
    let replayed = wal.replay_from(watermark);
    let third = recover_rows(&replayed, watermark);
    assert_eq!(scanned(&third.scan(0, u64::MAX, u64::MAX)), scanned(&a));
}

#[test]
fn scenario_cancelled_compaction_leaves_no_manifest_trace() {
    // A table's manifest lists two files.
    let mut manifest = Manifest::new();
    manifest.append_edit(ManifestEdit { added: vec![1, 2], removed: vec![], watermark: 5 });
    let before = manifest.load();
    assert!(before.files.contains(&1) && before.files.contains(&2));

    // A compaction of those files is cancelled mid-run: the table dropped.
    let mut task = CompactionTask::new(7, vec![1, 2], 3);
    task.start();
    assert_eq!(task.state, TaskState::Running);
    task.cancel();
    assert_eq!(task.state, TaskState::Cancelled);

    // No manifest edit references its output, and the inputs remain live.
    let after = manifest.load();
    assert!(!after.files.contains(&3));
    assert!(after.files.contains(&1) && after.files.contains(&2));
    assert_eq!(after.watermark, 5);
}

#[test]
fn committed_compaction_swaps_inputs_for_output_in_one_edit() {
    let mut manifest = Manifest::new();
    manifest.append_edit(ManifestEdit { added: vec![1, 2], removed: vec![], watermark: 5 });
    let mut task = CompactionTask::new(7, vec![1, 2], 3);
    task.start();
    let edit = task.commit();
    assert_eq!(task.state, TaskState::Committed);
    manifest.append_edit(edit);
    let state = manifest.load();
    assert!(state.files.contains(&3));
    assert!(!state.files.contains(&1) && !state.files.contains(&2));
}

#[test]
fn compaction_preserves_visible_rows_at_a_fixed_bound() {
    let mut m1 = Memtable::new();
    m1.put(1, vec![10], 1);
    m1.put(2, vec![20], 2);
    let mut m2 = Memtable::new();
    m2.put(1, vec![11], 3);
    m2.put(3, vec![30], 4);
    let a = write_sst(1, m1.sorted_rows());
    let b = write_sst(2, m2.sorted_rows());

    // The read path before compaction merges the two inputs.
    let merged_read = merge_rows(&a.data, &b.data);
    let out = run_compaction(3, &a, &b);

    for bound in 0..=5u64 {
        let before = merged_read.scan(0, u64::MAX, bound);
        let after = out.scan(0, u64::MAX, bound);
        assert_eq!(scanned(&before), scanned(&after));
    }
    assert_eq!(
        scanned(&out.scan(0, u64::MAX, 2)),
        vec![(1, 1, vec![10]), (2, 2, vec![20])]
    );
    assert_eq!(
        scanned(&out.scan(0, u64::MAX, 5)),
        vec![(1, 3, vec![11]), (2, 2, vec![20]), (3, 4, vec![30])]
    );
}

#[test]
fn candidate_selection_prefers_the_greatest_key_range_overlap() {
    let meta = |id: u64, min_key: u64, max_key: u64| SstMeta {
        file_id: id,
        min_key,
        max_key,
        min_seq: 1,
        max_seq: 1,
        row_count: 0,
    };
    // Files 0 and 2 overlap on [5, 10] (6 keys); 0 and 1 on [5, 6] (2 keys);
    // 1 and 2 do not overlap at all.
    let files = vec![meta(1, 0, 10), meta(2, 5, 6), meta(3, 5, 20)];
    assert_eq!(pick_candidates(&files), Some((0, 2)));
    // Fewer than two files: nothing to compact.
    assert_eq!(pick_candidates(&vec![meta(1, 0, 10)]), None);
    assert_eq!(pick_candidates(&vec![]), None);
}

#[test]
fn task_failures_retry_to_the_ceiling_then_turn_fatal() {
    let mut task = CompactionTask::new(7, vec![1], 2);
    task.start();
    task.fail(2);
    assert_eq!(task.state, TaskState::Failed);
    assert_eq!(task.retries, 1);
    task.restart();
    task.fail(2);
    assert_eq!(task.retries, 2);
    task.restart();
    task.fail(2);
    assert_eq!(task.state, TaskState::Fatal);
    assert_eq!(task.retries, 2);
}

#[test]
fn flush_triggers_fire_in_their_documented_order() {
    // Table preflush: 75% of 1000 is 750.
    assert_eq!(
        check_triggers(750, 1000, 75, 0, 0, 0, 0, false),
        Some(FlushTrigger::TableSize)
    );
    assert_eq!(check_triggers(749, 1000, 75, 0, 0, 0, 0, false), None);
    // Space ceiling.
    assert_eq!(
        check_triggers(0, 1000, 75, 1200, 1000, 0, 0, false),
        Some(FlushTrigger::SpaceSize)
    );
    // Database ceiling, checked after the space one.
    assert_eq!(
        check_triggers(0, 1000, 75, 0, 0, 5000, 4096, false),
        Some(FlushTrigger::DbSize)
    );
    // Explicit request.
    assert_eq!(
        check_triggers(0, 1000, 75, 0, 0, 0, 0, true),
        Some(FlushTrigger::Explicit)
    );
    // Zero ceilings are disabled, not instantly passed.
    assert_eq!(check_triggers(0, 1000, 75, 99, 0, 99, 0, false), None);
}

#[test]
fn flush_retries_escalate_to_fatal() {
    assert_eq!(next_flush_retry(0, 3), FlushRetryDecision::Retry { attempt: 1 });
    assert_eq!(next_flush_retry(2, 3), FlushRetryDecision::Retry { attempt: 3 });
    assert_eq!(next_flush_retry(3, 3), FlushRetryDecision::Fatal);
    // A zero ceiling fails on the first failure.
    assert_eq!(next_flush_retry(0, 0), FlushRetryDecision::Fatal);
}

#[test]
fn flush_victim_is_the_busiest_oldest_table() {
    assert_eq!(pick_flush_victim(&vec![100, 300, 300, 200]), Some(1));
    assert_eq!(pick_flush_victim(&vec![5]), Some(0));
    assert_eq!(pick_flush_victim(&vec![]), None);
}

#[test]
fn checkpoints_fall_due_at_the_configured_cadence() {
    // The default cadence: a snapshot after every 100 edits.
    assert!(!checkpoint_due(99, 100));
    assert!(checkpoint_due(100, 100));
    assert!(checkpoint_due(250, 100));
    // A cadence of zero disables automatic checkpointing.
    assert!(!checkpoint_due(1_000_000, 0));
}

#[test]
fn manifest_fold_and_checkpoint_preserve_the_live_set() {
    let mut manifest = Manifest::new();
    manifest.append_edit(ManifestEdit { added: vec![1, 2], removed: vec![], watermark: 3 });
    manifest.append_edit(ManifestEdit { added: vec![3], removed: vec![1], watermark: 7 });
    let state = manifest.load();
    assert!(!state.files.contains(&1));
    assert!(state.files.contains(&2) && state.files.contains(&3));
    assert_eq!(state.watermark, 7);

    // Checkpointing collapses the log without changing what it says.
    manifest.checkpoint();
    assert_eq!(manifest.edits.len(), 1);
    let after = manifest.load();
    assert!(!after.files.contains(&1));
    assert!(after.files.contains(&2) && after.files.contains(&3));
    assert_eq!(after.watermark, 7);
}

#[test]
fn table_state_applies_edits_in_order() {
    let mut state = TableState::new();
    state.apply_edit(&ManifestEdit { added: vec![4, 5], removed: vec![], watermark: 2 });
    state.apply_edit(&ManifestEdit { added: vec![6], removed: vec![4], watermark: 1 });
    assert!(!state.files.contains(&4));
    assert!(state.files.contains(&5) && state.files.contains(&6));
    // The watermark never moves backwards.
    assert_eq!(state.watermark, 2);
}

#[test]
fn table_write_freeze_flush_keeps_the_rows() {
    let mut table = Table::new(9);
    let s1 = table.write(1, vec![10]);
    let s2 = table.write(2, vec![20]);
    assert_eq!((s1, s2), (1, 2));
    let visible = table.active.scan(0, u64::MAX, u64::MAX);
    assert_eq!(scanned(&visible), vec![(1, 1, vec![10]), (2, 2, vec![20])]);

    // Freeze: new writes route to a fresh memtable, the frozen one queues.
    table.freeze();
    assert_eq!(table.frozen.len(), 1);
    assert_eq!(table.active.row_count(), 0);
    let s3 = table.write(1, vec![11]);
    assert_eq!(s3, 3);

    // Flush the oldest frozen memtable: the file holds its rows and the edit
    // carries its watermark.
    let (sst, edit) = table.flush_oldest(41).unwrap();
    assert_eq!(table.frozen.len(), 0);
    assert_eq!(edit.added, vec![41]);
    assert!(edit.removed.is_empty());
    assert_eq!(edit.watermark, 2);
    let from_sst = sst.scan(0, u64::MAX, u64::MAX);
    assert_eq!(scanned(&from_sst), scanned(&visible));

    // Nothing left to flush.
    assert!(table.flush_oldest(42).is_none());
}

#[test]
fn replay_skips_records_at_or_below_the_watermark() {
    let mut wal = TableWal::new();
    let _ = wal.append_row(1, vec![1]);
    let _ = wal.append_row(2, vec![2]);
    let _ = wal.append_row(3, vec![3]);
    let replayed = wal.replay_from(2);
    assert_eq!(replayed.len(), 1);
    assert_eq!(replayed[0].seq, 3);
    assert_eq!(replayed[0].key, 3);
    let everything = wal.replay_from(0);
    assert_eq!(everything.len(), 3);
}

#[test]
fn single_row_batches_do_not_split() {
    let batch = vec![WriteRow { key: 1, cols: vec![1, 2] }];
    let bounds = split_batch(&batch, 1000).unwrap();
    assert_eq!(bounds, vec![1]);
    let empty: Vec<WriteRow> = Vec::new();
    assert_eq!(split_batch(&empty, 1000).unwrap(), Vec::<usize>::new());
}

#[test]
fn an_oversized_row_rejects_the_whole_request() {
    // A row of 20 columns costs 176 bytes and can never fit a 100-byte
    // sub-batch: rows are atomic, so the request is rejected outright.
    let batch = vec![
        WriteRow { key: 1, cols: vec![0; 2] },
        WriteRow { key: 2, cols: vec![0; 20] },
    ];
    assert_eq!(split_batch(&batch, 100), Err(SplitError::OversizedRow));
}

#[test]
fn usage_reports_replace_rather_than_double_count() {
    let mut space = Space::new(4, 1000);
    space.record_usage(10, 600);
    space.record_usage(10, 650);
    // The second report replaces the first: one entry, no double count.
    assert_eq!(space.total_bytes(), 650);
    assert_eq!(space.flush_needed(), None);
    space.record_usage(11, 400);
    assert_eq!(space.total_bytes(), 1050);
    // Table 10 (older and busier) is the victim once the ceiling is passed.
    assert_eq!(space.flush_needed(), Some(0));
}

#[test]
fn replay_pages_resume_where_the_last_batch_ended() {
    let mut wal = TableWal::new();
    for k in 1..=5u64 {
        let _ = wal.append_row(k, vec![k]);
    }
    // Pages of two records walk the log in order.
    let page1 = wal.replay_page(0, 2);
    assert_eq!(page1.iter().map(|e| e.seq).collect::<Vec<_>>(), vec![1, 2]);
    let page2 = wal.replay_page(page1.last().unwrap().seq, 2);
    assert_eq!(page2.iter().map(|e| e.seq).collect::<Vec<_>>(), vec![3, 4]);
    // The last page is shorter: the log is exhausted.
    let page3 = wal.replay_page(page2.last().unwrap().seq, 2);
    assert_eq!(page3.iter().map(|e| e.seq).collect::<Vec<_>>(), vec![5]);
}

#[test]
fn scan_batch_size_defaults_to_the_row_group_size() {
    let mut c = analytic_engine::config::Config::default();
    assert_eq!(c.effective_scan_batch_size(8192), 8192);
    c.scan_batch_size = Some(500);
    assert_eq!(c.effective_scan_batch_size(8192), 500);
}

#[test]
fn recovery_rebuilds_every_acknowledged_write() {
    let mut table = Table::new(1);
    let _ = table.write(1, vec![10]);
    let _ = table.write(2, vec![20]);
    let _ = table.write(1, vec![11]);
    // A crash before any flush: rebuilding from the log at the manifest
    // watermark shows exactly what was acknowledged.
    let rebuilt = recover_table(&table.wal, table.state.watermark);
    let a = rebuilt.scan(0, u64::MAX, u64::MAX);
    let b = table.active.scan(0, u64::MAX, u64::MAX);
    assert_eq!(scanned(&a), scanned(&b));
    assert_eq!(scanned(&a), vec![(1, 3, vec![11]), (2, 2, vec![20])]);
}
