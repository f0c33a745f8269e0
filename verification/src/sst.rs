//! The SST layer: immutable sorted files, their footers, and the metadata
//! cache.
//!
//! An SST is written once, from a frozen memtable or by compaction, and never
//! changed afterwards; the only later operation is deletion, gated by the
//! manifest. The footer carries the key range, the sequence range and the row
//! count, so that opening a file needs only its metadata. Footers live in a
//! capacity-bounded LRU cache shared by all tables.

use vstd::prelude::*;

use crate::rows::{
    same_content, scan_result_for, Row, SortedRows,
};
use crate::FileId;

verus! {

/// The footer of one SST: everything a reader needs before touching data.
#[derive(Clone, Copy, Debug)]
pub struct SstMeta {
    pub file_id: FileId,
    pub min_key: u64,
    pub max_key: u64,
    pub min_seq: u64,
    pub max_seq: u64,
    pub row_count: usize,
}

/// An immutable sorted file: footer plus sorted row data.
#[derive(Debug)]
pub struct SstFile {
    pub meta: SstMeta,
    pub data: SortedRows,
}

impl SstFile {
    /// The footer describes the data: the row count is exact and every row
    /// lies inside the advertised key and sequence ranges.
    pub open spec fn wf(self) -> bool {
        &&& self.data.wf()
        &&& self.meta.row_count == self.data.rows@.len()
        &&& forall|i: int| 0 <= i < self.data.rows@.len()
            ==> self.meta.min_key <= (#[trigger] self.data.rows@[i]).key <= self.meta.max_key
                && self.meta.min_seq <= self.data.rows@[i].seq <= self.meta.max_seq
    }

    /// Sorted scan over `[lo, hi]` at visibility bound `bound`, with the same
    /// contract as a memtable scan: exactly one row per visible key, the
    /// newest at or below the bound.
    pub fn scan(&self, lo: u64, hi: u64, bound: u64) -> (r: Vec<Row>)
        requires
            self.wf(),
        ensures
            scan_result_for(self.data.rows@, r@, lo, hi, bound),
    {
        self.data.scan(lo, hi, bound)
    }

    pub fn row_count(&self) -> (n: usize)
        requires
            self.wf(),
        ensures
            n == self.data.rows@.len(),
    {
        self.meta.row_count
    }
}

/// Serializes a sorted row stream into an immutable file: the data is a copy
/// of the input, version for version, and the footer carries the rows' exact
/// key and sequence extremes. An empty file records all four bounds as 0, so
/// a footer always satisfies `min <= max`. Flush calls this on a frozen
/// memtable's rows; compaction on merged rows.
pub fn write_sst(file_id: FileId, rows: &SortedRows) -> (s: SstFile)
    requires
        rows.wf(),
    ensures
        s.wf(),
        s.meta.file_id == file_id,
        same_content(s.data.rows@, rows.rows@),
        s.data.rows@.len() == rows.rows@.len(),
        s.meta.min_key <= s.meta.max_key,
        s.meta.min_seq <= s.meta.max_seq,
        s.data.rows@.len() == 0 ==> s.meta.min_key == 0 && s.meta.max_key == 0
            && s.meta.min_seq == 0 && s.meta.max_seq == 0,
        s.data.rows@.len() > 0 ==> exists|t: int| 0 <= t < s.data.rows@.len()
            && (#[trigger] s.data.rows@[t]).key == s.meta.min_key,
        s.data.rows@.len() > 0 ==> exists|t: int| 0 <= t < s.data.rows@.len()
            && (#[trigger] s.data.rows@[t]).key == s.meta.max_key,
        s.data.rows@.len() > 0 ==> exists|t: int| 0 <= t < s.data.rows@.len()
            && (#[trigger] s.data.rows@[t]).seq == s.meta.min_seq,
        s.data.rows@.len() > 0 ==> exists|t: int| 0 <= t < s.data.rows@.len()
            && (#[trigger] s.data.rows@[t]).seq == s.meta.max_seq,
{
    let data = rows.duplicate();
    let mut min_key: u64 = 0;
    let mut max_key: u64 = 0;
    let mut min_seq: u64 = 0;
    let mut max_seq: u64 = 0;
    let mut i: usize = 0;
    while i < data.rows.len()
        invariant
            0 <= i <= data.rows@.len(),
            i == 0 ==> min_key == 0 && max_key == 0 && min_seq == 0 && max_seq == 0,
            forall|t: int| 0 <= t < i
                ==> min_key <= (#[trigger] data.rows@[t]).key <= max_key
                    && min_seq <= data.rows@[t].seq <= max_seq,
            i > 0 ==> exists|t: int| 0 <= t < i && (#[trigger] data.rows@[t]).key == min_key,
            i > 0 ==> exists|t: int| 0 <= t < i && (#[trigger] data.rows@[t]).key == max_key,
            i > 0 ==> exists|t: int| 0 <= t < i && (#[trigger] data.rows@[t]).seq == min_seq,
            i > 0 ==> exists|t: int| 0 <= t < i && (#[trigger] data.rows@[t]).seq == max_seq,
        decreases data.rows@.len() - i,
    {
        let k = data.rows[i].key;
        let q = data.rows[i].seq;
        if i == 0 {
            min_key = k;
            max_key = k;
            min_seq = q;
            max_seq = q;
        } else {
            if k < min_key {
                min_key = k;
            }
            if k > max_key {
                max_key = k;
            }
            if q < min_seq {
                min_seq = q;
            }
            if q > max_seq {
                max_seq = q;
            }
        }
        let ghost iold = i as int;
        i = i + 1;
        proof {
            if data.rows@[iold].key == min_key {
                assert(exists|t: int| 0 <= t < i && (#[trigger] data.rows@[t]).key == min_key);
            }
            if data.rows@[iold].key == max_key {
                assert(exists|t: int| 0 <= t < i && (#[trigger] data.rows@[t]).key == max_key);
            }
            if data.rows@[iold].seq == min_seq {
                assert(exists|t: int| 0 <= t < i && (#[trigger] data.rows@[t]).seq == min_seq);
            }
            if data.rows@[iold].seq == max_seq {
                assert(exists|t: int| 0 <= t < i && (#[trigger] data.rows@[t]).seq == max_seq);
            }
        }
    }
    let row_count = data.rows.len();
    SstFile {
        meta: SstMeta { file_id, min_key, max_key, min_seq, max_seq, row_count },
        data,
    }
}

/// Flushing preserves what readers see: the SST built from a frozen
/// memtable's rows answers every scan with rows identical, column for
/// column, to a scan of the memtable over the same range and bound.
pub proof fn lemma_flush_round_trip(
    mem_rows: Seq<Row>,
    sst: SstFile,
    r_before: Seq<Row>,
    r_after: Seq<Row>,
    lo: u64,
    hi: u64,
    bound: u64,
)
    requires
        crate::rows::rows_sorted(mem_rows),
        same_content(sst.data.rows@, mem_rows),
        scan_result_for(mem_rows, r_before, lo, hi, bound),
        scan_result_for(sst.data.rows@, r_after, lo, hi, bound),
    ensures
        r_before.len() == r_after.len(),
        forall|a: int| 0 <= a < r_before.len() ==> #[trigger] r_before[a].key == r_after[a].key
            && r_before[a].seq == r_after[a].seq && r_before[a].cols@ == r_after[a].cols@,
{
    crate::rows::lemma_scan_deterministic(mem_rows, sst.data.rows@, r_before, r_after, lo, hi,
        bound);
}

/// The SST metadata (footer) cache: least-recently-used entries leave first,
/// and when a capacity is set the entry count never exceeds it, under any
/// workload.
#[derive(Debug)]
pub struct MetaCache {
    /// `None` leaves the cache unbounded.
    pub cap: Option<usize>,
    /// Most recently used first; file ids are unique.
    pub entries: Vec<SstMeta>,
}

impl MetaCache {
    /// The bound honored and no file cached twice.
    pub open spec fn wf(self) -> bool {
        &&& (match self.cap {
            Some(cap) => self.entries@.len() <= cap,
            None => true,
        })
        &&& forall|i: int, j: int| 0 <= i < j < self.entries@.len()
            ==> (#[trigger] self.entries@[i]).file_id != (#[trigger] self.entries@[j]).file_id
    }

    /// The footer of `id` is cached.
    pub open spec fn caches(self, id: FileId) -> bool {
        exists|i: int| 0 <= i < self.entries@.len() && (#[trigger] self.entries@[i]).file_id == id
    }

    pub fn new(cap: Option<usize>) -> (c: MetaCache)
        requires
            cap is Some ==> cap.unwrap() >= 1,
        ensures
            c.wf(),
            c.cap == cap,
            c.entries@.len() == 0,
    {
        MetaCache { cap, entries: Vec::new() }
    }

    pub fn entry_count(&self) -> (n: usize)
        ensures
            n == self.entries@.len(),
    {
        self.entries.len()
    }

    /// Caches one footer as most recently used. A footer already present is
    /// refreshed in place; otherwise, at capacity, exactly the least recently
    /// used entry is evicted. The bound is never exceeded, every other cached
    /// footer stays cached, and nothing but eviction ever removes one.
    pub fn insert(&mut self, meta: SstMeta)
        requires
            old(self).wf(),
            old(self).cap is Some ==> old(self).cap.unwrap() >= 1,
        ensures
            final(self).wf(),
            final(self).cap == old(self).cap,
            final(self).caches(meta.file_id),
            final(self).entries@[0] == meta,
            final(self).cap is Some ==> final(self).entries@.len() <= final(self).cap.unwrap(),
            forall|id: u64| #[trigger] final(self).caches(id) && id != meta.file_id
                ==> old(self).caches(id),
            // On a refresh, or while the cache is not full, nothing is lost.
            (old(self).caches(meta.file_id) || old(self).cap is None
                || old(self).entries@.len() < old(self).cap.unwrap())
                ==> forall|id: u64| #[trigger] old(self).caches(id) ==> final(self).caches(id),
            // A new footer at capacity evicts exactly the least recently
            // used entry and keeps every other one.
            (!old(self).caches(meta.file_id) && old(self).cap is Some
                && old(self).entries@.len() == old(self).cap.unwrap())
                ==> (forall|id: u64| #[trigger] old(self).caches(id)
                        && id != old(self).entries@.last().file_id ==> final(self).caches(id))
                    && !final(self).caches(old(self).entries@.last().file_id),
            old(self).caches(meta.file_id)
                ==> final(self).entries@.len() == old(self).entries@.len(),
            (!old(self).caches(meta.file_id) && (old(self).cap is None
                || old(self).entries@.len() < old(self).cap.unwrap()))
                ==> final(self).entries@.len() == old(self).entries@.len() + 1,
            (!old(self).caches(meta.file_id) && old(self).cap is Some
                && old(self).entries@.len() == old(self).cap.unwrap())
                ==> final(self).entries@.len() == old(self).entries@.len(),
    {
        // Drop a stale copy of this footer, if one is cached.
        let mut at: usize = 0;
        let mut found = false;
        while at < self.entries.len() && !found
            invariant
                0 <= at <= self.entries@.len(),
                !found ==> forall|t: int| 0 <= t < at
                    ==> (#[trigger] self.entries@[t]).file_id != meta.file_id,
                found ==> at < self.entries@.len()
                    && self.entries@[at as int].file_id == meta.file_id,
            decreases self.entries@.len() - at + (if found { 0int } else { 1int }),
        {
            if self.entries[at].file_id == meta.file_id {
                found = true;
            } else {
                at = at + 1;
            }
        }
        let ghost s0 = self.entries@;
        proof {
            if !found {
                if old(self).caches(meta.file_id) {
                    let t = choose|t: int| 0 <= t < s0.len() && s0[t].file_id == meta.file_id;
                    assert(false);
                }
            }
            assert(found == old(self).caches(meta.file_id));
        }
        let mut evicted = false;
        if found {
            self.entries.remove(at);
        } else {
            if let Some(cap) = self.cap {
                if self.entries.len() == cap {
                    // Evict the least recently used entry.
                    self.entries.pop();
                    evicted = true;
                }
            }
        }
        let ghost s1 = self.entries@;
        proof {
            if evicted {
                assert(s1 =~= s0.drop_last());
            }
            assert forall|i: int, j: int| 0 <= i < j < s1.len()
                implies (#[trigger] s1[i]).file_id != (#[trigger] s1[j]).file_id by {
                if found {
                    let ai = at as int;
                    let i0: int = if i < ai { i } else { i + 1 };
                    let j0: int = if j < ai { j } else { j + 1 };
                    assert(s1[i] == s0[i0] && s1[j] == s0[j0]);
                } else {
                    assert(s1[i] == s0[i] && s1[j] == s0[j]);
                }
            }
            assert forall|t: int| 0 <= t < s1.len()
                implies (#[trigger] s1[t]).file_id != meta.file_id by {
                if found {
                    let ai = at as int;
                    let t0: int = if t < ai { t } else { t + 1 };
                    assert(s1[t] == s0[t0]);
                    if t0 != ai {
                        assert(s0[ai].file_id == meta.file_id);
                        if t0 < ai {
                            assert(s0[t0].file_id != s0[ai].file_id);
                        } else {
                            assert(s0[ai].file_id != s0[t0].file_id);
                        }
                    }
                } else {
                    assert(s1[t] == s0[t]);
                }
            }
        }
        self.entries.insert(0, meta);
        proof {
            let s2 = self.entries@;
            assert(s2 == s1.insert(0, meta));
            assert forall|i: int, j: int| 0 <= i < j < s2.len()
                implies (#[trigger] s2[i]).file_id != (#[trigger] s2[j]).file_id by {
                if i == 0 {
                    assert(s2[j] == s1[j - 1]);
                } else {
                    assert(s2[i] == s1[i - 1] && s2[j] == s1[j - 1]);
                }
            }
            assert(s2[0] == meta);
            if found || !evicted {
                assert forall|id: u64| #[trigger] old(self).caches(id)
                    implies self.caches(id) by {
                    let t = choose|t: int| 0 <= t < s0.len() && s0[t].file_id == id;
                    if found {
                        let ai = at as int;
                        if t == ai {
                            assert(s2[0].file_id == id);
                        } else {
                            let t1: int = if t < ai { t } else { t - 1 };
                            assert(s1[t1] == s0[t]);
                            assert(s2[t1 + 1].file_id == id);
                        }
                    } else {
                        assert(s1[t] == s0[t]);
                        assert(s2[t + 1].file_id == id);
                    }
                }
            } else {
                // A new footer at capacity: only the last (least recently
                // used) entry of the old order is gone.
                let last_id = s0[s0.len() - 1].file_id;
                assert forall|id: u64| #[trigger] old(self).caches(id) && id != last_id
                    implies self.caches(id) by {
                    let t = choose|t: int| 0 <= t < s0.len() && s0[t].file_id == id;
                    if t == s0.len() - 1 {
                        assert(false);
                    }
                    assert(s1[t] == s0[t]);
                    assert(s2[t + 1].file_id == id);
                }
                assert forall|i: int| 0 <= i < s2.len()
                    implies (#[trigger] s2[i]).file_id != last_id by {
                    if i == 0 {
                        // The new footer is not the evicted one: it was not
                        // cached at all, while the evicted one was.
                        assert(s0[s0.len() - 1].file_id == last_id);
                        if meta.file_id == last_id {
                            assert(old(self).caches(meta.file_id));
                        }
                    } else {
                        assert(s2[i] == s1[i - 1] && s1[i - 1] == s0[i - 1]);
                        assert(s0[i - 1].file_id != s0[s0.len() - 1].file_id);
                    }
                }
                if self.caches(last_id) {
                    let i = choose|i: int| 0 <= i < s2.len() && s2[i].file_id == last_id;
                    assert(false);
                }
            }
            assert forall|id: u64| #[trigger] self.caches(id) && id != meta.file_id
                implies old(self).caches(id) by {
                let i = choose|i: int| 0 <= i < s2.len() && s2[i].file_id == id;
                assert(i != 0);
                assert(s2[i] == s1[i - 1]);
                if found {
                    let ai = at as int;
                    let t0: int = if i - 1 < ai { i - 1 } else { i };
                    assert(s1[i - 1] == s0[t0]);
                } else {
                    assert(s1[i - 1] == s0[i - 1]);
                }
            }
        }
    }

    /// Marks a cached footer as just used, moving it to the front of the
    /// eviction order: a read counts as use, so recency tracks opens as well
    /// as inserts. What is cached does not change; a miss changes nothing.
    pub fn touch(&mut self, id: FileId) -> (hit: bool)
        requires
            old(self).wf(),
        ensures
            final(self).wf(),
            final(self).cap == old(self).cap,
            hit == old(self).caches(id),
            final(self).entries@.len() == old(self).entries@.len(),
            forall|x: u64| #[trigger] final(self).caches(x) <==> old(self).caches(x),
            hit ==> final(self).entries@[0].file_id == id,
            !hit ==> final(self).entries@ == old(self).entries@,
    {
        let ghost s0 = self.entries@;
        let mut at: usize = 0;
        let mut found = false;
        while at < self.entries.len() && !found
            invariant
                0 <= at <= self.entries@.len(),
                self.entries@ == s0,
                !found ==> forall|t: int| 0 <= t < at
                    ==> (#[trigger] self.entries@[t]).file_id != id,
                found ==> at < self.entries@.len()
                    && self.entries@[at as int].file_id == id,
            decreases self.entries@.len() - at + (if found { 0int } else { 1int }),
        {
            if self.entries[at].file_id == id {
                found = true;
            } else {
                at = at + 1;
            }
        }
        proof {
            if !found {
                if old(self).caches(id) {
                    let t = choose|t: int| 0 <= t < s0.len() && s0[t].file_id == id;
                    assert(false);
                }
            }
            assert(found == old(self).caches(id));
        }
        if !found {
            return false;
        }
        let meta = self.entries[at];
        self.entries.remove(at);
        let ghost s1 = self.entries@;
        self.entries.insert(0, meta);
        proof {
            let s2 = self.entries@;
            let ai = at as int;
            assert(s2 == s1.insert(0, meta));
            assert(meta == s0[ai]);
            // s2 is a permutation of s0: the touched footer moved to the
            // front, everything else kept its relative order.
            assert forall|i: int, j: int| 0 <= i < j < s2.len()
                implies (#[trigger] s2[i]).file_id != (#[trigger] s2[j]).file_id by {
                let i0: int = if i == 0 { ai } else if i - 1 < ai { i - 1 } else { i };
                let j0: int = if j - 1 < ai { j - 1 } else { j };
                assert(s2[i] == s0[i0] && s2[j] == s0[j0]);
                if i0 < j0 {
                    assert(s0[i0].file_id != s0[j0].file_id);
                } else {
                    assert(s0[j0].file_id != s0[i0].file_id);
                }
            }
            assert forall|x: u64| #[trigger] self.caches(x) implies old(self).caches(x) by {
                let i = choose|i: int| 0 <= i < s2.len() && s2[i].file_id == x;
                if i == 0 {
                    assert(s0[ai].file_id == x);
                } else {
                    let i0: int = if i - 1 < ai { i - 1 } else { i };
                    assert(s2[i] == s1[i - 1] && s1[i - 1] == s0[i0]);
                }
            }
            assert forall|x: u64| old(self).caches(x) implies self.caches(x) by {
                let t = choose|t: int| 0 <= t < s0.len() && s0[t].file_id == x;
                if t == ai {
                    assert(s2[0].file_id == x);
                } else {
                    let t1: int = if t < ai { t } else { t - 1 };
                    assert(s1[t1] == s0[t]);
                    assert(s2[t1 + 1].file_id == x);
                }
            }
            assert(s2[0].file_id == id);
        }
        true
    }

    /// Looks a footer up without changing what is cached.
    pub fn get(&self, id: FileId) -> (r: Option<SstMeta>)
        requires
            self.wf(),
        ensures
            r is Some <==> self.caches(id),
            r is Some ==> r.unwrap().file_id == id
                && exists|i: int| 0 <= i < self.entries@.len()
                    && #[trigger] self.entries@[i] == r.unwrap(),
    {
        let mut i: usize = 0;
        while i < self.entries.len()
            invariant
                0 <= i <= self.entries@.len(),
                forall|t: int| 0 <= t < i ==> (#[trigger] self.entries@[t]).file_id != id,
            decreases self.entries@.len() - i,
        {
            if self.entries[i].file_id == id {
                return Some(self.entries[i]);
            }
            i = i + 1;
        }
        None
    }
}

/// The cache bound, as a standing law: a well-formed cache with a capacity
/// set never holds more entries than that capacity, whatever workload
/// produced it, because every operation preserves well-formedness.
pub proof fn lemma_meta_cache_bounded(c: MetaCache, cap: usize)
    requires
        c.wf(),
        c.cap == Some(cap),
    ensures
        c.entries@.len() <= cap,
{
}

} // verus!
