//! The compaction scheduler's core: task lifecycle, candidate selection and
//! the content-preserving merge.
//!
//! A task moves Pending -> Running -> Committed, or fails and retries up to a
//! configured ceiling before it turns fatal. Committing swaps the task's
//! input files for its output in a single manifest edit; a task cancelled
//! mid-run (its table dropped) produces no manifest edit at all, so its
//! inputs stay live and nothing dangles. Candidates are the pair of files
//! with the greatest key-range overlap, tie-broken deterministically towards
//! older files, bounding worst-case read fan-out.

use vstd::prelude::*;

use crate::manifest::ManifestEdit;
use crate::{FileId, TableId};
use crate::rows::{has_seq, has_version, merge_rows, rows_sorted, scan_result_for, Row, SortedRows};
use crate::sst::{write_sst, SstFile, SstMeta};

verus! {

/// The lifecycle of one compaction task.
#[derive(Clone, Copy, Debug, PartialEq, Eq, Structural)]
pub enum TaskState {
    Pending,
    Running,
    Committed,
    /// Failed; eligible to run again.
    Failed,
    /// Retries exhausted: needs operator action.
    Fatal,
    /// The table was dropped mid-run: the output is discarded.
    Cancelled,
}

/// One compaction task of one table: chosen input files and the id its
/// output will carry.
#[derive(Debug)]
pub struct CompactionTask {
    pub table_id: TableId,
    pub inputs: Vec<FileId>,
    pub output: FileId,
    pub state: TaskState,
    /// The count of recorded failures.
    pub retries: usize,
}

impl CompactionTask {
    pub fn new(table_id: TableId, inputs: Vec<FileId>, output: FileId) -> (t: CompactionTask)
        ensures
            t.table_id == table_id,
            t.inputs@ == inputs@,
            t.output == output,
            t.state == TaskState::Pending,
            t.retries == 0,
    {
        CompactionTask { table_id, inputs, output, state: TaskState::Pending, retries: 0 }
    }

    /// Takes a pending task into execution.
    pub fn start(&mut self)
        requires
            old(self).state == TaskState::Pending,
        ensures
            final(self).state == TaskState::Running,
            final(self).inputs@ == old(self).inputs@,
            final(self).output == old(self).output,
            final(self).table_id == old(self).table_id,
    {
        self.state = TaskState::Running;
    }

    /// Commits a finished run: the one manifest edit that atomically
    /// replaces the inputs with the output. Only this transition ever
    /// produces an edit.
    pub fn commit(&mut self) -> (edit: ManifestEdit)
        requires
            old(self).state == TaskState::Running,
        ensures
            final(self).state == TaskState::Committed,
            final(self).inputs@ == old(self).inputs@,
            final(self).output == old(self).output,
            edit.added@.len() == 1,
            edit.added@[0] == old(self).output,
            edit.removed@ == old(self).inputs@,
            edit.watermark == 0,
    {
        self.state = TaskState::Committed;
        let mut added: Vec<u64> = Vec::new();
        added.push(self.output);
        let removed = copy_ids(&self.inputs);
        ManifestEdit { added, removed, watermark: 0 }
    }

    /// Records one failure: the task retries until the ceiling is reached,
    /// then turns fatal.
    pub fn fail(&mut self, max_retry_limit: usize)
        requires
            old(self).state == TaskState::Running,
        ensures
            final(self).inputs@ == old(self).inputs@,
            final(self).output == old(self).output,
            final(self).table_id == old(self).table_id,
            old(self).retries < max_retry_limit ==> final(self).state == TaskState::Failed
                && final(self).retries == old(self).retries + 1,
            old(self).retries >= max_retry_limit ==> final(self).state == TaskState::Fatal
                && final(self).retries == old(self).retries,
    {
        if self.retries < max_retry_limit {
            self.retries = self.retries + 1;
            self.state = TaskState::Failed;
        } else {
            self.state = TaskState::Fatal;
        }
    }

    /// Takes a failed task back into execution for a retry.
    pub fn restart(&mut self)
        requires
            old(self).state == TaskState::Failed,
        ensures
            final(self).state == TaskState::Running,
            final(self).inputs@ == old(self).inputs@,
            final(self).output == old(self).output,
            final(self).retries == old(self).retries,
    {
        self.state = TaskState::Running;
    }

    /// Cancels a task whose table was dropped mid-run. No manifest edit is
    /// produced by or after this: the output is discarded and the inputs
    /// stay exactly as the manifest lists them.
    pub fn cancel(&mut self)
        requires
            old(self).state == TaskState::Pending || old(self).state == TaskState::Running,
        ensures
            final(self).state == TaskState::Cancelled,
            final(self).inputs@ == old(self).inputs@,
            final(self).output == old(self).output,
    {
        self.state = TaskState::Cancelled;
    }
}

/// The key-range overlap of two footers, in keys, saturating at `u64::MAX`;
/// 0 when they are disjoint.
pub open spec fn overlap_of(a: SstMeta, b: SstMeta) -> int {
    let lo = if a.min_key > b.min_key { a.min_key } else { b.min_key };
    let hi = if a.max_key < b.max_key { a.max_key } else { b.max_key };
    if hi >= lo {
        if hi - lo + 1 > u64::MAX {
            u64::MAX as int
        } else {
            hi - lo + 1
        }
    } else {
        0
    }
}

/// Computes the key-range overlap of two footers.
fn overlap_exec(a: &SstMeta, b: &SstMeta) -> (o: u64)
    requires
        a.min_key <= a.max_key,
        b.min_key <= b.max_key,
    ensures
        o == overlap_of(*a, *b),
{
    let lo = if a.min_key > b.min_key { a.min_key } else { b.min_key };
    let hi = if a.max_key < b.max_key { a.max_key } else { b.max_key };
    if hi >= lo {
        let span = hi - lo;
        if span == u64::MAX {
            u64::MAX
        } else {
            span + 1
        }
    } else {
        0
    }
}

/// Picks the two files to compact: the pair with the greatest key-range
/// overlap. Ties break deterministically towards the earliest pair in file
/// order, which, with files listed oldest first, prefers older files: every
/// pair before the chosen one overlaps strictly less.
pub fn pick_candidates(files: &Vec<SstMeta>) -> (r: Option<(usize, usize)>)
    requires
        forall|t: int| 0 <= t < files@.len()
            ==> (#[trigger] files@[t]).min_key <= files@[t].max_key,
    ensures
        r is None <==> files@.len() < 2,
        r is Some ==> {
            let (x, y) = r.unwrap();
            &&& 0 <= x < y < files@.len()
            &&& forall|a: int, b: int| 0 <= a < b < files@.len()
                ==> overlap_of(#[trigger] files@[a], #[trigger] files@[b])
                    <= overlap_of(files@[x as int], files@[y as int])
            &&& forall|a: int, b: int| 0 <= a < b < files@.len()
                && (a < x || (a == x && b < y))
                ==> overlap_of(#[trigger] files@[a], #[trigger] files@[b])
                    < overlap_of(files@[x as int], files@[y as int])
        },
{
    if files.len() < 2 {
        return None;
    }
    let mut bx: usize = 0;
    let mut by: usize = 1;
    let mut best: u64 = overlap_exec(&files[0], &files[1]);
    let mut a: usize = 0;
    while a < files.len()
        invariant
            forall|t: int| 0 <= t < files@.len()
                ==> (#[trigger] files@[t]).min_key <= files@[t].max_key,
            files@.len() >= 2,
            0 <= a <= files@.len(),
            0 <= bx < by < files@.len(),
            best == overlap_of(files@[bx as int], files@[by as int]),
            forall|x: int, y: int| 0 <= x < y < files@.len() && x < a
                ==> overlap_of(#[trigger] files@[x], #[trigger] files@[y]) <= best,
            forall|x: int, y: int| 0 <= x < y < files@.len()
                && (x < bx || (x == bx && y < by))
                ==> overlap_of(#[trigger] files@[x], #[trigger] files@[y]) < best,
        decreases files@.len() - a,
    {
        let mut b: usize = a + 1;
        while b < files.len()
            invariant
                forall|t: int| 0 <= t < files@.len()
                    ==> (#[trigger] files@[t]).min_key <= files@[t].max_key,
                files@.len() >= 2,
                0 <= a < files@.len(),
                a + 1 <= b <= files@.len(),
                0 <= bx < by < files@.len(),
                best == overlap_of(files@[bx as int], files@[by as int]),
                forall|x: int, y: int| 0 <= x < y < files@.len() && x < a
                    ==> overlap_of(#[trigger] files@[x], #[trigger] files@[y]) <= best,
                forall|y: int| a < y < b
                    ==> overlap_of(files@[a as int], #[trigger] files@[y]) <= best,
                forall|x: int, y: int| 0 <= x < y < files@.len()
                    && (x < bx || (x == bx && y < by))
                    ==> overlap_of(#[trigger] files@[x], #[trigger] files@[y]) < best,
            decreases files@.len() - b,
        {
            let o = overlap_exec(&files[a], &files[b]);
            if o > best {
                proof {
                    // Every pair before (a, b) was already seen and bounded
                    // by the old maximum, which this pair strictly beats.
                    assert forall|x: int, y: int| 0 <= x < y < files@.len()
                        && (x < a || (x == a && y < b))
                        implies overlap_of(#[trigger] files@[x], #[trigger] files@[y]) < o by {
                        if x == a as int {
                            assert(overlap_of(files@[x], files@[y]) <= best);
                        }
                    }
                }
                best = o;
                bx = a;
                by = b;
            }
            b = b + 1;
        }
        a = a + 1;
    }
    Some((bx, by))
}

/// Merges two input files into the committed output: one file holding every
/// version of both, ready to replace them in the manifest. The inputs carry
/// distinct sequence stamps because one table never stamps a sequence twice.
pub fn run_compaction(output_id: FileId, a: &SstFile, b: &SstFile) -> (o: SstFile)
    requires
        a.wf(),
        b.wf(),
        forall|k: u64, q: u64| !(has_seq(a.data.rows@, k, q) && #[trigger] has_seq(
            b.data.rows@,
            k,
            q,
        )),
    ensures
        o.wf(),
        o.meta.file_id == output_id,
        forall|k: u64, q: u64, c: Seq<u64>| #[trigger] has_version(o.data.rows@, k, q, c)
            <==> has_version(a.data.rows@, k, q, c) || has_version(b.data.rows@, k, q, c),
{
    let merged = merge_rows(&a.data, &b.data);
    let o = write_sst(output_id, &merged);
    proof {
        assert forall|k: u64, q: u64, c: Seq<u64>| #[trigger] has_version(o.data.rows@, k, q, c)
            <==> has_version(a.data.rows@, k, q, c) || has_version(b.data.rows@, k, q, c) by {
            assert(has_version(o.data.rows@, k, q, c) <==> has_version(merged.rows@, k, q, c));
        }
    }
    o
}

/// Compaction preserves logical content: at any fixed visibility bound, a
/// scan of the committed output returns, row for row and column for column,
/// what a merged scan across the input files returned before the compaction.
/// The version-set hypotheses below are exactly what [`run_compaction`]
/// ensures; its own requirement that the inputs share no (key, sequence)
/// stamp excludes no real input, because one table stamps each sequence
/// number once and flushes non-overlapping sequence ranges.
pub proof fn lemma_compaction_preserves_scans(
    a: Seq<Row>,
    b: Seq<Row>,
    merged_read: Seq<Row>,
    out: Seq<Row>,
    r_before: Seq<Row>,
    r_after: Seq<Row>,
    lo: u64,
    hi: u64,
    bound: u64,
)
    requires
        rows_sorted(merged_read),
        forall|k: u64, q: u64, c: Seq<u64>| #[trigger] has_version(merged_read, k, q, c)
            <==> has_version(a, k, q, c) || has_version(b, k, q, c),
        forall|k: u64, q: u64, c: Seq<u64>| #[trigger] has_version(out, k, q, c)
            <==> has_version(a, k, q, c) || has_version(b, k, q, c),
        scan_result_for(merged_read, r_before, lo, hi, bound),
        scan_result_for(out, r_after, lo, hi, bound),
    ensures
        r_before.len() == r_after.len(),
        forall|x: int| 0 <= x < r_before.len() ==> #[trigger] r_before[x].key == r_after[x].key
            && r_before[x].seq == r_after[x].seq && r_before[x].cols@ == r_after[x].cols@,
{
    assert forall|k: u64, q: u64, c: Seq<u64>| has_version(merged_read, k, q, c)
        <==> has_version(out, k, q, c) by {
        if has_version(merged_read, k, q, c) {
            assert(has_version(a, k, q, c) || has_version(b, k, q, c));
        }
        if has_version(out, k, q, c) {
            assert(has_version(a, k, q, c) || has_version(b, k, q, c));
        }
    }
    crate::rows::lemma_scan_deterministic(merged_read, out, r_before, r_after, lo, hi, bound);
}

/// Copies a list of file ids.
fn copy_ids(v: &Vec<u64>) -> (r: Vec<u64>)
    ensures
        r@ == v@,
{
    let mut out: Vec<u64> = Vec::new();
    let mut i: usize = 0;
    while i < v.len()
        invariant
            0 <= i <= v@.len(),
            out@ == v@.subrange(0, i as int),
        decreases v@.len() - i,
    {
        out.push(v[i]);
        i = i + 1;
    }
    proof {
        assert(out@ =~= v@);
    }
    out
}

} // verus!
