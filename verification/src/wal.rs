//! The write-ahead log of one table: durable, ordered appends and resumable
//! replay.
//!
//! Appends assign the table's sequence numbers; replay yields records above a
//! watermark in ascending order. The three durable backends share this
//! contract and differ only in durability and latency, so recovery semantics
//! never depend on the backend.
//!
//! When `max_bytes_per_write_batch` is set, one write request may split into
//! several appends; splitting happens before sequence assignment, so sub-batch
//! rows are stamped exactly as an unsplit batch would be, and a failure
//! between appends is surfaced as explicit partial success, never collapsed
//! into plain success or plain failure.

use vstd::prelude::*;

use crate::memtable::row_cost;
use crate::SequenceNumber;

verus! {

/// One row of a write request, before a sequence number is stamped.
#[derive(Clone, Debug)]
pub struct WriteRow {
    pub key: u64,
    pub cols: Vec<u64>,
}

/// One durable log record: a row stamped with its sequence number.
#[derive(Clone, Debug)]
pub struct WalEntry {
    pub seq: SequenceNumber,
    pub key: u64,
    pub cols: Vec<u64>,
}

/// The log holds a record with sequence `q` carrying `(k, c)`.
pub open spec fn wal_has(s: Seq<WalEntry>, q: u64, k: u64, c: Seq<u64>) -> bool {
    exists|i: int| 0 <= i < s.len() && s[i].seq == q && s[i].key == k && s[i].cols@ == c
}

/// The byte cost of the rows `s[from..to]`.
pub open spec fn seg_cost(s: Seq<WriteRow>, from: int, to: int) -> int
    decreases to - from,
{
    if from >= to {
        0
    } else {
        seg_cost(s, from, to - 1) + row_cost(s[to - 1].cols@.len())
    }
}

/// `bounds` cuts `batch` into consecutive, nonempty sub-batches: strictly
/// ascending end positions, the last at the batch's end.
pub open spec fn bounds_valid(batch: Seq<WriteRow>, bounds: Seq<usize>) -> bool {
    &&& (batch.len() == 0 <==> bounds.len() == 0)
    &&& bounds.len() > 0 ==> bounds[bounds.len() - 1] == batch.len()
    &&& forall|b: int, d: int| 0 <= b < d < bounds.len() ==> bounds[b] < bounds[d]
    &&& bounds.len() > 0 ==> bounds[0] > 0
}

/// The start of sub-batch `b` under `bounds`.
pub open spec fn sub_start(bounds: Seq<usize>, b: int) -> int {
    if b == 0 {
        0
    } else {
        bounds[b - 1] as int
    }
}

/// The outcome of one write request, after its sub-batches went to the log.
/// A split request whose later append fails is reported as partial success
/// with the exact count of durable sub-batches.
#[derive(Clone, Copy, Debug, PartialEq, Eq, Structural)]
pub enum WriteOutcome {
    /// Every sub-batch is durable.
    Success { sub_batches: usize },
    /// Only the first `durable` of `total` sub-batches are durable.
    Partial { durable: usize, total: usize },
    /// No sub-batch is durable.
    Failed { sub_batches: usize },
}

/// Why a write request cannot go to the log as asked.
#[derive(Clone, Copy, Debug, PartialEq, Eq, Structural)]
pub enum SplitError {
    /// One row alone is larger than `max_bytes_per_write_batch`: rows are
    /// atomic, so the request is rejected rather than silently oversized.
    OversizedRow,
}

/// Whether one row fits a sub-batch of at most `max_bytes`.
fn row_fits(cols: &Vec<u64>, max_bytes: u64) -> (b: bool)
    ensures
        b == (row_cost(cols@.len()) <= max_bytes),
{
    let wide = cols.len() as u64;
    if wide > (u64::MAX - 16) / 8 {
        false
    } else {
        16 + 8 * wide <= max_bytes
    }
}

/// Splits a write request into the fewest greedy sub-batches of at most
/// `max_bytes` each: each sub-batch is filled until the next row would
/// overflow it. Returns the sub-batch end positions, or rejects the request
/// exactly when some row alone exceeds `max_bytes`.
pub fn split_batch(batch: &Vec<WriteRow>, max_bytes: u64) -> (r: Result<Vec<usize>, SplitError>)
    ensures
        r is Ok <==> (forall|t: int| 0 <= t < batch@.len()
            ==> row_cost((#[trigger] batch@[t]).cols@.len()) <= max_bytes),
        r is Err ==> r == Result::<Vec<usize>, SplitError>::Err(SplitError::OversizedRow),
        r is Ok ==> bounds_valid(batch@, r.unwrap()@),
        r is Ok ==> forall|b: int| 0 <= b < r.unwrap()@.len()
            ==> seg_cost(batch@, sub_start(r.unwrap()@, b), #[trigger] r.unwrap()@[b] as int)
                <= max_bytes,
        r is Ok ==> forall|b: int| 0 <= b < r.unwrap()@.len() - 1
            ==> seg_cost(batch@, sub_start(r.unwrap()@, b), #[trigger] r.unwrap()@[b] as int)
                + row_cost(batch@[r.unwrap()@[b] as int].cols@.len()) > max_bytes,
{
    let mut t: usize = 0;
    while t < batch.len()
        invariant
            0 <= t <= batch@.len(),
            forall|u: int| 0 <= u < t
                ==> row_cost((#[trigger] batch@[u]).cols@.len()) <= max_bytes,
        decreases batch@.len() - t,
    {
        if !row_fits(&batch[t].cols, max_bytes) {
            return Err(SplitError::OversizedRow);
        }
        t = t + 1;
    }
    let mut bounds: Vec<usize> = Vec::new();
    let mut start: usize = 0;
    let mut i: usize = 0;
    let mut cur: u64 = 0;
    while i < batch.len()
        invariant
            0 <= start <= i <= batch@.len(),
            forall|t: int| 0 <= t < batch@.len()
                ==> row_cost((#[trigger] batch@[t]).cols@.len()) <= max_bytes,
            cur == seg_cost(batch@, start as int, i as int),
            cur <= max_bytes,
            start == (if bounds@.len() == 0 { 0int } else { bounds@[bounds@.len() - 1] as int }),
            forall|b: int, d: int| 0 <= b < d < bounds@.len() ==> bounds@[b] < bounds@[d],
            bounds@.len() > 0 ==> bounds@[0] > 0,
            forall|b: int| 0 <= b < bounds@.len()
                ==> seg_cost(batch@, sub_start(bounds@, b), #[trigger] bounds@[b] as int)
                    <= max_bytes,
            forall|b: int| 0 <= b < bounds@.len()
                ==> seg_cost(batch@, sub_start(bounds@, b), #[trigger] bounds@[b] as int)
                    + row_cost(batch@[bounds@[b] as int].cols@.len()) > max_bytes,
            start == i || seg_cost(batch@, start as int, i as int) > 0,
            i > 0 && start == i ==> bounds@.len() > 0 && bounds@[bounds@.len() - 1] == i,
        decreases batch@.len() - i,
    {
        let c = row_cost_exec(&batch[i].cols);
        if cur > max_bytes - c {
            // The next row does not fit: close the current sub-batch.
            proof {
                assert(seg_cost(batch@, start as int, i as int)
                    + row_cost(batch@[i as int].cols@.len()) > max_bytes);
            }
            bounds.push(i);
            start = i;
            cur = 0;
        }
        cur = cur + c;
        i = i + 1;
        proof {
            assert(seg_cost(batch@, start as int, i as int)
                == seg_cost(batch@, start as int, i as int - 1)
                    + row_cost(batch@[i as int - 1].cols@.len()));
        }
    }
    if start < batch.len() {
        bounds.push(batch.len());
    }
    Ok(bounds)
}

/// The byte cost of one row, exact while it fits in `u64`.
fn row_cost_exec(cols: &Vec<u64>) -> (c: u64)
    requires
        row_cost(cols@.len()) <= u64::MAX,
    ensures
        c == row_cost(cols@.len()),
{
    16 + 8 * (cols.len() as u64)
}

/// The write-ahead log of one table. Entries hold strictly ascending
/// sequence numbers below `next_seq`, the next stamp to assign.
#[derive(Debug)]
pub struct TableWal {
    pub entries: Vec<WalEntry>,
    pub next_seq: SequenceNumber,
}

impl TableWal {
    pub open spec fn wf(self) -> bool {
        &&& self.next_seq >= 1
        &&& forall|i: int, j: int| 0 <= i < j < self.entries@.len()
            ==> (#[trigger] self.entries@[i]).seq < (#[trigger] self.entries@[j]).seq
        &&& forall|i: int| 0 <= i < self.entries@.len()
            ==> 1 <= (#[trigger] self.entries@[i]).seq < self.next_seq
    }

    pub fn new() -> (w: TableWal)
        ensures
            w.wf(),
            w.entries@.len() == 0,
            w.next_seq == 1,
    {
        TableWal { entries: Vec::new(), next_seq: 1 }
    }

    /// Durably appends one row, stamping it with the next sequence number,
    /// which the call returns. Nothing already logged changes.
    pub fn append_row(&mut self, key: u64, cols: Vec<u64>) -> (seq: u64)
        requires
            old(self).wf(),
            old(self).next_seq < u64::MAX,
        ensures
            final(self).wf(),
            seq == old(self).next_seq,
            final(self).next_seq == old(self).next_seq + 1,
            final(self).entries@.len() == old(self).entries@.len() + 1,
            forall|t: int| 0 <= t < old(self).entries@.len()
                ==> #[trigger] final(self).entries@[t] == old(self).entries@[t],
            final(self).entries@.last().seq == seq,
            final(self).entries@.last().key == key,
            final(self).entries@.last().cols@ == cols@,
    {
        let seq = self.next_seq;
        self.next_seq = self.next_seq + 1;
        let ghost s0 = self.entries@;
        self.entries.push(WalEntry { seq, key, cols });
        proof {
            assert forall|i: int, j: int| 0 <= i < j < self.entries@.len()
                implies (#[trigger] self.entries@[i]).seq < (#[trigger] self.entries@[j]).seq by {
                if j < s0.len() {
                    assert(self.entries@[i] == s0[i] && self.entries@[j] == s0[j]);
                } else {
                    assert(self.entries@[j].seq == seq);
                    assert(self.entries@[i] == s0[i]);
                }
            }
        }
        seq
    }

    /// Appends the first `acked` sub-batches of a split write request, the
    /// prefix the backend acknowledged as durable, stamping their rows with
    /// consecutive sequence numbers exactly as an unsplit append would. The
    /// outcome reports full, partial or no durability, with exact counts.
    pub fn append_split(
        &mut self,
        batch: &Vec<WriteRow>,
        bounds: &Vec<usize>,
        acked: usize,
    ) -> (o: WriteOutcome)
        requires
            old(self).wf(),
            bounds_valid(batch@, bounds@),
            acked <= bounds@.len(),
            old(self).next_seq as int + batch@.len() <= u64::MAX,
        ensures
            final(self).wf(),
            acked == bounds@.len() ==> o == (WriteOutcome::Success { sub_batches: acked }),
            0 < acked < bounds@.len()
                ==> o == (WriteOutcome::Partial { durable: acked, total: bounds@.len() as usize }),
            acked == 0 && bounds@.len() > 0
                ==> o == (WriteOutcome::Failed { sub_batches: bounds@.len() as usize }),
            // The durable prefix of the request is logged, row for row, with
            // consecutive stamps starting at the old next sequence number.
            final(self).entries@.len()
                == old(self).entries@.len() + durable_rows(batch@, bounds@, acked as int),
            forall|t: int| 0 <= t < old(self).entries@.len()
                ==> final(self).entries@[t] == old(self).entries@[t],
            forall|t: int| 0 <= t < durable_rows(batch@, bounds@, acked as int)
                ==> (#[trigger] final(self).entries@[old(self).entries@.len() + t]).seq
                        == old(self).next_seq + t
                    && final(self).entries@[old(self).entries@.len() + t].key == batch@[t].key
                    && final(self).entries@[old(self).entries@.len() + t].cols@ == batch@[t].cols@,
            final(self).next_seq
                == old(self).next_seq + durable_rows(batch@, bounds@, acked as int),
    {
        let rows_to_log: usize = if acked == 0 {
            0
        } else {
            bounds[acked - 1]
        };
        proof {
            assert(rows_to_log as int == durable_rows(batch@, bounds@, acked as int));
            if acked > 0 {
                if acked < bounds@.len() {
                    assert(bounds@[acked as int - 1] < bounds@[bounds@.len() - 1]);
                }
                assert(bounds@[acked as int - 1] <= batch@.len());
            }
        }
        let mut t: usize = 0;
        while t < rows_to_log
            invariant
                0 <= t <= rows_to_log,
                rows_to_log <= batch@.len(),
                self.wf(),
                self.next_seq == old(self).next_seq + t,
                old(self).next_seq as int + batch@.len() <= u64::MAX,
                self.entries@.len() == old(self).entries@.len() + t,
                forall|u: int| 0 <= u < old(self).entries@.len()
                    ==> #[trigger] self.entries@[u] == old(self).entries@[u],
                forall|u: int| 0 <= u < t
                    ==> (#[trigger] self.entries@[old(self).entries@.len() + u]).seq
                            == old(self).next_seq + u
                        && self.entries@[old(self).entries@.len() + u].key == batch@[u].key
                        && self.entries@[old(self).entries@.len() + u].cols@ == batch@[u].cols@,
            decreases rows_to_log - t,
        {
            let cols = copy_cols(&batch[t].cols);
            self.append_row(batch[t].key, cols);
            t = t + 1;
        }
        if acked == bounds.len() {
            WriteOutcome::Success { sub_batches: acked }
        } else if acked > 0 {
            WriteOutcome::Partial { durable: acked, total: bounds.len() }
        } else {
            WriteOutcome::Failed { sub_batches: bounds.len() }
        }
    }

    /// Replays one batch of at most `batch_size` records above `watermark`,
    /// in ascending sequence order. Replay resumes from the last returned
    /// record's sequence number: a shorter batch means the log is exhausted.
    pub fn replay_page(&self, watermark: u64, batch_size: usize) -> (r: Vec<WalEntry>)
        requires
            self.wf(),
        ensures
            r@.len() <= batch_size,
            forall|a: int, b: int| 0 <= a < b < r@.len() ==> r@[a].seq < r@[b].seq,
            forall|a: int| 0 <= a < r@.len() ==> (#[trigger] r@[a]).seq > watermark
                && wal_has(self.entries@, r@[a].seq, r@[a].key, r@[a].cols@),
            // Every record above the watermark is in the batch, unless the
            // batch filled up; then exactly those up to its last stamp are.
            forall|q: u64, k: u64, c: Seq<u64>| wal_has(self.entries@, q, k, c) && q > watermark
                && (r@.len() < batch_size || (r@.len() > 0 && q <= r@.last().seq))
                ==> wal_has(r@, q, k, c),
            r@.len() < batch_size ==> forall|q: u64, k: u64, c: Seq<u64>|
                wal_has(self.entries@, q, k, c) && q > watermark ==> wal_has(r@, q, k, c),
    {
        let full = self.replay_from(watermark);
        let mut r: Vec<WalEntry> = Vec::new();
        let mut i: usize = 0;
        while i < full.len() && i < batch_size
            invariant
                0 <= i <= full@.len(),
                i <= batch_size,
                r@.len() == i,
                forall|a: int| 0 <= a < i ==> #[trigger] r@[a].seq == full@[a].seq
                    && r@[a].key == full@[a].key && r@[a].cols@ == full@[a].cols@,
            decreases full@.len() - i,
        {
            r.push(WalEntry {
                seq: full[i].seq,
                key: full[i].key,
                cols: copy_cols(&full[i].cols),
            });
            i = i + 1;
        }
        proof {
            assert forall|a: int, b: int| 0 <= a < b < r@.len() implies r@[a].seq < r@[b].seq by {
                assert(full@[a].seq < full@[b].seq);
            }
            assert forall|a: int| 0 <= a < r@.len() implies (#[trigger] r@[a]).seq > watermark
                && wal_has(self.entries@, r@[a].seq, r@[a].key, r@[a].cols@) by {
                assert(full@[a].seq > watermark);
                assert(wal_has(self.entries@, full@[a].seq, full@[a].key, full@[a].cols@));
            }
            assert forall|q: u64, k: u64, c: Seq<u64>| wal_has(self.entries@, q, k, c)
                && q > watermark
                && (r@.len() < batch_size || (r@.len() > 0 && q <= r@.last().seq))
                implies wal_has(r@, q, k, c) by {
                assert(wal_has(full@, q, k, c));
                let a = choose|a: int| 0 <= a < full@.len() && (#[trigger] full@[a]).seq == q
                    && full@[a].key == k && full@[a].cols@ == c;
                if r@.len() < batch_size {
                    // The loop stopped because the source ran out.
                    assert(r@.len() == full@.len());
                    assert(r@[a].seq == q && r@[a].key == k && r@[a].cols@ == c);
                } else {
                    if a >= r@.len() {
                        assert(full@[r@.len() - 1].seq < full@[a].seq);
                        assert(r@.last().seq == full@[r@.len() - 1].seq);
                        assert(false);
                    }
                    assert(r@[a].seq == q && r@[a].key == k && r@[a].cols@ == c);
                }
            }
        }
        r
    }

    /// Replays the records above `watermark`, in ascending sequence order:
    /// exactly the logged records a recovering table must re-apply.
    pub fn replay_from(&self, watermark: u64) -> (r: Vec<WalEntry>)
        requires
            self.wf(),
        ensures
            forall|a: int, b: int| 0 <= a < b < r@.len() ==> r@[a].seq < r@[b].seq,
            forall|a: int| 0 <= a < r@.len() ==> (#[trigger] r@[a]).seq > watermark
                && wal_has(self.entries@, r@[a].seq, r@[a].key, r@[a].cols@),
            forall|q: u64, k: u64, c: Seq<u64>| wal_has(self.entries@, q, k, c) && q > watermark
                ==> wal_has(r@, q, k, c),
    {
        let mut r: Vec<WalEntry> = Vec::new();
        let mut i: usize = 0;
        while i < self.entries.len()
            invariant
                0 <= i <= self.entries@.len(),
                self.wf(),
                forall|a: int, b: int| 0 <= a < b < r@.len() ==> r@[a].seq < r@[b].seq,
                forall|a: int| 0 <= a < r@.len() ==> (#[trigger] r@[a]).seq > watermark
                    && wal_has(self.entries@, r@[a].seq, r@[a].key, r@[a].cols@),
                forall|a: int| 0 <= a < r@.len()
                    ==> exists|u: int| 0 <= u < i && (#[trigger] r@[a]).seq
                        == self.entries@[u].seq,
                forall|u: int| 0 <= u < i && (#[trigger] self.entries@[u]).seq > watermark
                    ==> wal_has(r@, self.entries@[u].seq, self.entries@[u].key,
                        self.entries@[u].cols@),
            decreases self.entries@.len() - i,
        {
            if self.entries[i].seq > watermark {
                let ghost r_prev = r@;
                let entry = WalEntry {
                    seq: self.entries[i].seq,
                    key: self.entries[i].key,
                    cols: copy_cols(&self.entries[i].cols),
                };
                proof {
                    assert forall|a: int| 0 <= a < r_prev.len()
                        implies r_prev[a].seq < entry.seq by {
                        let u = choose|u: int| 0 <= u < i
                            && r_prev[a].seq == self.entries@[u].seq;
                        assert(self.entries@[u].seq < self.entries@[i as int].seq);
                    }
                }
                r.push(entry);
                proof {
                    assert(wal_has(self.entries@, entry.seq, entry.key, entry.cols@));
                    assert forall|u: int| 0 <= u < i + 1
                        && (#[trigger] self.entries@[u]).seq > watermark
                        implies wal_has(r@, self.entries@[u].seq, self.entries@[u].key,
                            self.entries@[u].cols@) by {
                        if u < i {
                            let a = choose|a: int| 0 <= a < r_prev.len()
                                && r_prev[a].seq == self.entries@[u].seq
                                && r_prev[a].key == self.entries@[u].key
                                && r_prev[a].cols@ == self.entries@[u].cols@;
                            assert(r@[a].seq == self.entries@[u].seq);
                        } else {
                            assert(r@[r@.len() - 1].seq == self.entries@[u].seq);
                        }
                    }
                }
            }
            i = i + 1;
        }
        proof {
            assert forall|q: u64, k: u64, c: Seq<u64>|
                wal_has(self.entries@, q, k, c) && q > watermark
                implies wal_has(r@, q, k, c) by {
                let u = choose|u: int| 0 <= u < self.entries@.len()
                    && self.entries@[u].seq == q && self.entries@[u].key == k
                    && self.entries@[u].cols@ == c;
            }
        }
        r
    }
}

/// How many rows of the request lie in its first `acked` sub-batches.
pub open spec fn durable_rows(batch: Seq<WriteRow>, bounds: Seq<usize>, acked: int) -> int {
    if acked == 0 {
        0
    } else {
        bounds[acked - 1] as int
    }
}

/// Copies one row's column values.
fn copy_cols(cols: &Vec<u64>) -> (r: Vec<u64>)
    ensures
        r@ == cols@,
{
    let mut out: Vec<u64> = Vec::new();
    let mut i: usize = 0;
    while i < cols.len()
        invariant
            0 <= i <= cols@.len(),
            out@ == cols@.subrange(0, i as int),
        decreases cols@.len() - i,
    {
        out.push(cols[i]);
        i = i + 1;
    }
    proof {
        assert(out@ =~= cols@);
    }
    out
}

} // verus!
