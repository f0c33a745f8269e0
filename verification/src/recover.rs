//! The recovery orchestrator: rebuilds table state at startup from the
//! manifest and the write-ahead log.
//!
//! A table recovers by loading its manifest state first, then replaying only
//! the log records above the manifest watermark, in sequence order, into a
//! fresh memtable. Under table-based recovery tables go strictly one after
//! another; under shard-based recovery the tables of one log shard are
//! planned into batches of a bounded size and their records demultiplex by
//! table id. Both modes apply the same per-table replay, so a shard-based
//! run rebuilds exactly what a table-based run would.

use vstd::prelude::*;

use crate::memtable::Memtable;
use crate::rows::{clone_cols, has_version, same_content};
use crate::wal::{wal_has, TableWal, WalEntry};
use crate::{SequenceNumber, TableId};

verus! {

/// The memtable holds exactly the log records above the watermark: replay
/// applied everything newer than what the manifest says is persisted, and
/// nothing else.
pub open spec fn recovered_from(m: Memtable, log: Seq<WalEntry>, watermark: u64) -> bool {
    forall|k: u64, q: u64, c: Seq<u64>| #[trigger] has_version(m.contents(), k, q, c)
        <==> q > watermark && wal_has(log, q, k, c)
}

/// Replays `log` (strictly ascending sequence numbers) above `watermark`
/// into a fresh memtable.
pub fn recover_rows(log: &Vec<WalEntry>, watermark: u64) -> (m: Memtable)
    requires
        forall|i: int, j: int| 0 <= i < j < log@.len()
            ==> (#[trigger] log@[i]).seq < (#[trigger] log@[j]).seq,
        forall|i: int| 0 <= i < log@.len() ==> (#[trigger] log@[i]).seq >= 1,
    ensures
        m.wf(),
        recovered_from(m, log@, watermark),
{
    let ghost gl = log@;
    let mut m = Memtable::new();
    let mut i: usize = 0;
    while i < log.len()
        invariant
            0 <= i <= gl.len(),
            log@ == gl,
            forall|a: int, b: int| 0 <= a < b < gl.len()
                ==> (#[trigger] gl[a]).seq < (#[trigger] gl[b]).seq,
            forall|a: int| 0 <= a < gl.len() ==> (#[trigger] gl[a]).seq >= 1,
            m.wf(),
            i < gl.len() ==> m.spec_last_seq() < gl[i as int].seq,
            forall|k: u64, q: u64, c: Seq<u64>| #[trigger] has_version(m.contents(), k, q, c)
                <==> q > watermark && wal_has(gl.subrange(0, i as int), q, k, c),
        decreases gl.len() - i,
    {
        let ghost ii = i as int;
        let ghost pre = m.contents();
        let seq = log[i].seq;
        let key = log[i].key;
        if seq > watermark {
            let cols = clone_cols(&log[i].cols);
            m.put(key, cols, seq);
        }
        i = i + 1;
        proof {
            assert(gl.subrange(0, ii + 1) =~= gl.subrange(0, ii).push(gl[ii]));
            if i < gl.len() {
                assert(gl[ii].seq < gl[i as int].seq);
            }
            assert forall|k: u64, q: u64, c: Seq<u64>| #[trigger] has_version(m.contents(), k, q, c)
                <==> q > watermark && wal_has(gl.subrange(0, ii + 1), q, k, c) by {
                if has_version(m.contents(), k, q, c) {
                    if seq > watermark && k == key && q == seq {
                        assert(c == gl[ii].cols@);
                        assert(gl.subrange(0, ii + 1)[ii].seq == q
                            && gl.subrange(0, ii + 1)[ii].key == k
                            && gl.subrange(0, ii + 1)[ii].cols@ == c);
                        assert(wal_has(gl.subrange(0, ii + 1), q, k, c));
                    } else {
                        assert(has_version(pre, k, q, c));
                        let u = choose|u: int| 0 <= u < ii
                            && (#[trigger] gl.subrange(0, ii)[u]).seq == q
                            && gl.subrange(0, ii)[u].key == k
                            && gl.subrange(0, ii)[u].cols@ == c;
                        assert(gl.subrange(0, ii + 1)[u].seq == q
                            && gl.subrange(0, ii + 1)[u].key == k
                            && gl.subrange(0, ii + 1)[u].cols@ == c);
                        assert(wal_has(gl.subrange(0, ii + 1), q, k, c));
                    }
                }
                if q > watermark && wal_has(gl.subrange(0, ii + 1), q, k, c) {
                    let u = choose|u: int| 0 <= u < ii + 1
                        && (#[trigger] gl.subrange(0, ii + 1)[u]).seq == q
                        && gl.subrange(0, ii + 1)[u].key == k
                        && gl.subrange(0, ii + 1)[u].cols@ == c;
                    if u < ii {
                        assert(gl.subrange(0, ii)[u].seq == q
                            && gl.subrange(0, ii)[u].key == k
                            && gl.subrange(0, ii)[u].cols@ == c);
                        assert(wal_has(gl.subrange(0, ii), q, k, c));
                        assert(has_version(pre, k, q, c));
                        if seq > watermark {
                            // An older record never shares the new stamp.
                            assert(gl[u].seq < gl[ii].seq);
                            assert(has_version(m.contents(), k, q, c));
                        } else {
                            assert(has_version(m.contents(), k, q, c));
                        }
                    } else {
                        assert(q == gl[ii].seq && k == gl[ii].key && c == gl[ii].cols@);
                        assert(seq > watermark);
                        assert(has_version(m.contents(), k, q, c));
                    }
                }
            }
        }
    }
    proof {
        assert(gl.subrange(0, gl.len() as int) =~= gl);
    }
    m
}

/// Recovers one table under table-based recovery: manifest watermark first,
/// then log replay above it.
pub fn recover_table(wal: &TableWal, watermark: u64) -> (m: Memtable)
    requires
        wal.wf(),
    ensures
        m.wf(),
        recovered_from(m, wal.entries@, watermark),
{
    recover_rows(&wal.entries, watermark)
}

/// Replay is idempotent: recovering a table twice from the same log and the
/// same manifest watermark, as repeated restarts do, yields memtables with
/// identical contents.
pub proof fn lemma_replay_idempotent(m1: Memtable, m2: Memtable, log: Seq<WalEntry>, watermark: u64)
    requires
        recovered_from(m1, log, watermark),
        recovered_from(m2, log, watermark),
    ensures
        same_content(m1.contents(), m2.contents()),
{
    assert forall|k: u64, q: u64, c: Seq<u64>| has_version(m1.contents(), k, q, c)
        <==> has_version(m2.contents(), k, q, c) by {
        if has_version(m1.contents(), k, q, c) {
            assert(q > watermark && wal_has(log, q, k, c));
            assert(has_version(m2.contents(), k, q, c));
        }
        if has_version(m2.contents(), k, q, c) {
            assert(q > watermark && wal_has(log, q, k, c));
            assert(has_version(m1.contents(), k, q, c));
        }
    }
}

/// One record of a shared log shard: records of many tables interleave and
/// demultiplex by table id while streaming.
#[derive(Clone, Debug)]
pub struct ShardWalEntry {
    pub table_id: TableId,
    pub seq: SequenceNumber,
    pub key: u64,
    pub cols: Vec<u64>,
}

/// The shard holds a record of `table` with sequence `q` carrying `(k, c)`.
pub open spec fn shard_has(s: Seq<ShardWalEntry>, table: u64, q: u64, k: u64, c: Seq<u64>) -> bool {
    exists|i: int| 0 <= i < s.len() && s[i].table_id == table && s[i].seq == q && s[i].key == k
        && s[i].cols@ == c
}

/// A well-formed shard: per table, sequence numbers ascend strictly, and
/// every stamp is at least 1.
pub open spec fn shard_wf(s: Seq<ShardWalEntry>) -> bool {
    &&& forall|i: int, j: int| 0 <= i < j < s.len()
        && (#[trigger] s[i]).table_id == (#[trigger] s[j]).table_id ==> s[i].seq < s[j].seq
    &&& forall|i: int| 0 <= i < s.len() ==> (#[trigger] s[i]).seq >= 1
}

/// The memtable holds exactly the shard's records of `table` above the
/// watermark.
pub open spec fn recovered_from_shard(
    m: Memtable,
    shard: Seq<ShardWalEntry>,
    table: u64,
    watermark: u64,
) -> bool {
    forall|k: u64, q: u64, c: Seq<u64>| #[trigger] has_version(m.contents(), k, q, c)
        <==> q > watermark && shard_has(shard, table, q, k, c)
}

/// Demultiplexes one table's records out of a shared shard, in order.
pub fn demux_table(shard: &Vec<ShardWalEntry>, table: u64) -> (r: Vec<WalEntry>)
    requires
        shard_wf(shard@),
    ensures
        forall|i: int, j: int| 0 <= i < j < r@.len()
            ==> (#[trigger] r@[i]).seq < (#[trigger] r@[j]).seq,
        forall|i: int| 0 <= i < r@.len() ==> (#[trigger] r@[i]).seq >= 1,
        forall|q: u64, k: u64, c: Seq<u64>| #[trigger] wal_has(r@, q, k, c)
            <==> shard_has(shard@, table, q, k, c),
{
    let ghost gs = shard@;
    let mut r: Vec<WalEntry> = Vec::new();
    let mut i: usize = 0;
    while i < shard.len()
        invariant
            0 <= i <= gs.len(),
            shard@ == gs,
            shard_wf(gs),
            forall|a: int, b: int| 0 <= a < b < r@.len()
                ==> (#[trigger] r@[a]).seq < (#[trigger] r@[b]).seq,
            forall|a: int| 0 <= a < r@.len() ==> (#[trigger] r@[a]).seq >= 1,
            r@.len() > 0 ==> exists|u: int| 0 <= u < i && (#[trigger] gs[u]).table_id == table
                && r@[r@.len() - 1].seq == gs[u].seq,
            forall|q: u64, k: u64, c: Seq<u64>| #[trigger] wal_has(r@, q, k, c)
                <==> shard_has(gs.subrange(0, i as int), table, q, k, c),
        decreases gs.len() - i,
    {
        let ghost ii = i as int;
        let ghost r_prev = r@;
        let matched = shard[i].table_id == table;
        if matched {
            let entry = WalEntry {
                seq: shard[i].seq,
                key: shard[i].key,
                cols: clone_cols(&shard[i].cols),
            };
            proof {
                if r_prev.len() > 0 {
                    let u = choose|u: int| 0 <= u < ii && (#[trigger] gs[u]).table_id == table
                        && r_prev[r_prev.len() - 1].seq == gs[u].seq;
                    assert(gs[u].seq < gs[ii].seq);
                }
                assert forall|a: int| 0 <= a < r_prev.len()
                    implies (#[trigger] r_prev[a]).seq < entry.seq by {
                    if a < r_prev.len() - 1 {
                        assert(r_prev[a].seq < r_prev[r_prev.len() - 1].seq);
                    }
                }
            }
            r.push(entry);
        }
        i = i + 1;
        proof {
            assert(gs.subrange(0, ii + 1) =~= gs.subrange(0, ii).push(gs[ii]));
            if matched {
                assert(r@[r@.len() - 1].seq == gs[ii].seq && gs[ii].table_id == table);
                assert(exists|u: int| 0 <= u < i && (#[trigger] gs[u]).table_id == table
                    && r@[r@.len() - 1].seq == gs[u].seq);
            } else {
                if r@.len() > 0 {
                    let u = choose|u: int| 0 <= u < ii && (#[trigger] gs[u]).table_id == table
                        && r_prev[r_prev.len() - 1].seq == gs[u].seq;
                    assert(r@ == r_prev);
                    assert(0 <= u < i && gs[u].table_id == table
                        && r@[r@.len() - 1].seq == gs[u].seq);
                }
            }
            assert forall|q: u64, k: u64, c: Seq<u64>| #[trigger] wal_has(r@, q, k, c)
                <==> shard_has(gs.subrange(0, ii + 1), table, q, k, c) by {
                if wal_has(r@, q, k, c) {
                    let a = choose|a: int| 0 <= a < r@.len() && (#[trigger] r@[a]).seq == q
                        && r@[a].key == k && r@[a].cols@ == c;
                    if a < r_prev.len() {
                        assert(r_prev[a].seq == q && r_prev[a].key == k && r_prev[a].cols@ == c);
                        assert(wal_has(r_prev, q, k, c));
                        let u = choose|u: int| 0 <= u < ii
                            && (#[trigger] gs.subrange(0, ii)[u]).table_id == table
                            && gs.subrange(0, ii)[u].seq == q && gs.subrange(0, ii)[u].key == k
                            && gs.subrange(0, ii)[u].cols@ == c;
                        assert(gs.subrange(0, ii + 1)[u].table_id == table
                            && gs.subrange(0, ii + 1)[u].seq == q
                            && gs.subrange(0, ii + 1)[u].key == k
                            && gs.subrange(0, ii + 1)[u].cols@ == c);
                        assert(shard_has(gs.subrange(0, ii + 1), table, q, k, c));
                    } else {
                        assert(gs[ii].table_id == table);
                        assert(gs.subrange(0, ii + 1)[ii].table_id == table
                            && gs.subrange(0, ii + 1)[ii].seq == q
                            && gs.subrange(0, ii + 1)[ii].key == k
                            && gs.subrange(0, ii + 1)[ii].cols@ == c);
                        assert(shard_has(gs.subrange(0, ii + 1), table, q, k, c));
                    }
                }
                if shard_has(gs.subrange(0, ii + 1), table, q, k, c) {
                    let u = choose|u: int| 0 <= u < ii + 1
                        && (#[trigger] gs.subrange(0, ii + 1)[u]).table_id == table
                        && gs.subrange(0, ii + 1)[u].seq == q && gs.subrange(0, ii + 1)[u].key == k
                        && gs.subrange(0, ii + 1)[u].cols@ == c;
                    if u < ii {
                        assert(gs.subrange(0, ii)[u].table_id == table
                            && gs.subrange(0, ii)[u].seq == q && gs.subrange(0, ii)[u].key == k
                            && gs.subrange(0, ii)[u].cols@ == c);
                        assert(shard_has(gs.subrange(0, ii), table, q, k, c));
                        assert(wal_has(r_prev, q, k, c));
                        let a = choose|a: int| 0 <= a < r_prev.len()
                            && (#[trigger] r_prev[a]).seq == q && r_prev[a].key == k
                            && r_prev[a].cols@ == c;
                        assert(r@[a].seq == q && r@[a].key == k && r@[a].cols@ == c);
                        assert(wal_has(r@, q, k, c));
                    } else {
                        assert(gs[ii].table_id == table);
                        assert(r@[r@.len() - 1].seq == q && r@[r@.len() - 1].key == k
                            && r@[r@.len() - 1].cols@ == c);
                        assert(wal_has(r@, q, k, c));
                    }
                }
            }
        }
    }
    proof {
        assert(gs.subrange(0, gs.len() as int) =~= gs);
    }
    r
}

/// Recovers one table from a shared shard: its records are demultiplexed and
/// replayed above the watermark, exactly as a table-based run would do with
/// a dedicated log.
pub fn recover_table_from_shard(
    shard: &Vec<ShardWalEntry>,
    table: u64,
    watermark: u64,
) -> (m: Memtable)
    requires
        shard_wf(shard@),
    ensures
        m.wf(),
        recovered_from_shard(m, shard@, table, watermark),
{
    let log = demux_table(shard, table);
    let m = recover_rows(&log, watermark);
    proof {
        assert forall|k: u64, q: u64, c: Seq<u64>| #[trigger] has_version(m.contents(), k, q, c)
            <==> q > watermark && shard_has(shard@, table, q, k, c) by {
            if has_version(m.contents(), k, q, c) {
                assert(q > watermark && wal_has(log@, q, k, c));
            }
            if q > watermark && shard_has(shard@, table, q, k, c) {
                assert(wal_has(log@, q, k, c));
            }
        }
    }
    m
}

/// A shard-based run rebuilds, for every table, exactly the memtable of a
/// reference table-based run over the same records and watermark.
pub proof fn lemma_shard_recovery_matches_table_based(
    m_shard: Memtable,
    m_table: Memtable,
    shard: Seq<ShardWalEntry>,
    table: u64,
    watermark: u64,
)
    requires
        recovered_from_shard(m_shard, shard, table, watermark),
        recovered_from_shard(m_table, shard, table, watermark),
    ensures
        same_content(m_shard.contents(), m_table.contents()),
{
    assert forall|k: u64, q: u64, c: Seq<u64>| has_version(m_shard.contents(), k, q, c)
        <==> has_version(m_table.contents(), k, q, c) by {
        if has_version(m_shard.contents(), k, q, c) {
            assert(q > watermark && shard_has(shard, table, q, k, c));
            assert(has_version(m_table.contents(), k, q, c));
        }
        if has_version(m_table.contents(), k, q, c) {
            assert(q > watermark && shard_has(shard, table, q, k, c));
            assert(has_version(m_shard.contents(), k, q, c));
        }
    }
}

/// Plans shard-based recovery: table counts per batch, each batch full at
/// `max_per_batch` tables except possibly the last, together covering all
/// `n_tables`.
pub fn plan_replay_batches(n_tables: usize, max_per_batch: usize) -> (plan: Vec<usize>)
    requires
        max_per_batch >= 1,
    ensures
        batch_total(plan@) == n_tables,
        forall|b: int| 0 <= b < plan@.len() ==> 0 < #[trigger] plan@[b] <= max_per_batch,
        forall|b: int| 0 <= b < plan@.len() - 1 ==> #[trigger] plan@[b] == max_per_batch,
{
    let mut plan: Vec<usize> = Vec::new();
    let mut left = n_tables;
    while left > 0
        invariant
            batch_total(plan@) + left == n_tables,
            forall|b: int| 0 <= b < plan@.len() ==> 0 < #[trigger] plan@[b] <= max_per_batch,
            forall|b: int| 0 <= b < plan@.len() - 1 ==> #[trigger] plan@[b] == max_per_batch,
            left > 0 ==> forall|b: int| 0 <= b < plan@.len()
                ==> #[trigger] plan@[b] == max_per_batch,
            max_per_batch >= 1,
        decreases left,
    {
        let ghost plan_prev = plan@;
        if left >= max_per_batch {
            plan.push(max_per_batch);
            left = left - max_per_batch;
        } else {
            plan.push(left);
            left = 0;
        }
        proof {
            assert(plan@.drop_last() =~= plan_prev);
        }
    }
    plan
}

/// The number of tables a plan covers.
pub open spec fn batch_total(plan: Seq<usize>) -> int
    decreases plan.len(),
{
    if plan.len() == 0 {
        0
    } else {
        batch_total(plan.drop_last()) + plan.last()
    }
}

} // verus!
