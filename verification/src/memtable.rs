//! The memtable: a table's mutable, in-memory sorted write buffer.
//!
//! A table writes through a single writer, so every put carries a sequence
//! number greater than everything the memtable already holds. Readers scan at
//! a visibility bound and see exactly one version per key: the newest at or
//! below the bound. The running byte-size estimate is O(1) and never shrinks
//! while the memtable is live, so flush triggers cannot stall on it.

use vstd::prelude::*;

use crate::rows::{has_seq, has_version, scan_result_for, Row, SortedRows};

verus! {

/// The bookkeeping cost of one row: a fixed key/sequence overhead plus its
/// column values.
pub open spec fn row_cost(cols_len: nat) -> int {
    16 + 8 * (cols_len as int)
}

/// Addition on the byte estimate saturates instead of wrapping.
pub open spec fn sat_add(a: int, b: int) -> int {
    if a + b > u64::MAX { u64::MAX as int } else { a + b }
}

pub struct Memtable {
    pub data: SortedRows,
    pub approx_bytes: u64,
    pub last_seq: u64,
}

impl Memtable {
    /// The stored versions, as the contract-level view of the memtable.
    pub open spec fn contents(self) -> Seq<Row> {
        self.data.rows@
    }

    pub open spec fn spec_last_seq(self) -> u64 {
        self.last_seq
    }

    pub open spec fn spec_approx_bytes(self) -> u64 {
        self.approx_bytes
    }

    /// Rows stand in storage order and no stored sequence exceeds the stamp
    /// of the latest accepted write.
    pub open spec fn wf(self) -> bool {
        &&& self.data.wf()
        &&& forall|k: u64, q: u64| #[trigger] has_seq(self.data.rows@, k, q) ==> q <= self.last_seq
    }

    pub fn new() -> (m: Memtable)
        ensures
            m.wf(),
            m.contents().len() == 0,
            m.spec_last_seq() == 0,
            m.spec_approx_bytes() == 0,
    {
        Memtable { data: SortedRows::new(), approx_bytes: 0, last_seq: 0 }
    }

    /// Inserts (or, per key, supersedes for readers) the column values of
    /// `key` at sequence `seq`, without touching any other stored version.
    /// The byte estimate grows by the row's cost, saturating at `u64::MAX`.
    pub fn put(&mut self, key: u64, cols: Vec<u64>, seq: u64)
        requires
            old(self).wf(),
            seq > old(self).spec_last_seq(),
        ensures
            final(self).wf(),
            final(self).spec_last_seq() == seq,
            has_version(final(self).contents(), key, seq, cols@),
            forall|k: u64, q: u64, c: Seq<u64>| !(k == key && q == seq) ==>
                (has_version(final(self).contents(), k, q, c)
                    <==> has_version(old(self).contents(), k, q, c)),
            forall|c: Seq<u64>| has_version(final(self).contents(), key, seq, c) ==> c == cols@,
            final(self).contents().len() == old(self).contents().len() + 1,
            final(self).spec_approx_bytes()
                == sat_add(old(self).spec_approx_bytes() as int, row_cost(cols@.len())),
    {
        proof {
            if has_seq(self.data.rows@, key, seq) {
                assert(seq <= self.last_seq);
            }
        }
        let cost = saturating_add_u64(16, saturating_mul_len(cols.len()));
        proof {
            assert(cost == (if row_cost(cols@.len()) > u64::MAX {
                u64::MAX as int
            } else {
                row_cost(cols@.len())
            }));
        }
        self.approx_bytes = saturating_add_u64(self.approx_bytes, cost);
        self.last_seq = seq;
        let ghost s0 = self.data.rows@;
        self.data.insert(key, seq, cols);
        proof {
            assert forall|k: u64, q: u64| #[trigger] has_seq(self.data.rows@, k, q)
                implies q <= self.last_seq by {
                if !(k == key && q == seq) {
                    let t = choose|t: int| 0 <= t < self.data.rows@.len()
                        && self.data.rows@[t].key == k && self.data.rows@[t].seq == q;
                    assert(has_version(self.data.rows@, k, q, self.data.rows@[t].cols@));
                    assert(has_version(s0, k, q, self.data.rows@[t].cols@));
                    let u = choose|u: int| 0 <= u < s0.len() && s0[u].key == k && s0[u].seq == q
                        && s0[u].cols@ == self.data.rows@[t].cols@;
                    assert(has_seq(s0, k, q));
                }
            }
        }
    }

    /// Sorted scan over `[lo, hi]` at visibility bound `bound`: exactly one
    /// row per visible key, carrying the greatest stored sequence at or
    /// below the bound.
    pub fn scan(&self, lo: u64, hi: u64, bound: u64) -> (r: Vec<Row>)
        requires
            self.wf(),
        ensures
            scan_result_for(self.contents(), r@, lo, hi, bound),
    {
        self.data.scan(lo, hi, bound)
    }

    /// O(1) running estimate of the buffered bytes; it never under-reports
    /// by shrinking, so flush triggers fire no later than they should.
    pub fn approximate_size(&self) -> (n: u64)
        ensures
            n == self.spec_approx_bytes(),
    {
        self.approx_bytes
    }

    /// The greatest sequence number stamped on an accepted write, 0 before
    /// any write.
    pub fn last_sequence(&self) -> (q: u64)
        ensures
            q == self.spec_last_seq(),
    {
        self.last_seq
    }

    pub fn row_count(&self) -> (n: usize)
        ensures
            n == self.contents().len(),
    {
        self.data.len()
    }

    /// The frozen memtable's rows, borrowed by flush to build an SST.
    pub fn sorted_rows(&self) -> (r: &SortedRows)
        ensures
            r.rows@ == self.contents(),
    {
        &self.data
    }
}

/// `a + b`, saturating at `u64::MAX`.
fn saturating_add_u64(a: u64, b: u64) -> (r: u64)
    ensures
        r == sat_add(a as int, b as int),
{
    if a > u64::MAX - b {
        u64::MAX
    } else {
        a + b
    }
}

/// `8 * len` as a byte count, saturating at `u64::MAX`.
fn saturating_mul_len(len: usize) -> (r: u64)
    ensures
        r == (if 8 * len > u64::MAX { u64::MAX as int } else { 8 * (len as int) }),
{
    let wide = len as u64;
    if wide > u64::MAX / 8 {
        u64::MAX
    } else {
        8 * wide
    }
}

} // verus!
