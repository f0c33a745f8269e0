//! Sorted multi-version row storage, the shared backbone of the memtable and
//! of the SST model.
//!
//! Rows sort by key ascending, then sequence descending, so in a forward scan
//! the first version of a key at or below a visibility bound is the newest
//! visible one ("newest wins").

use vstd::prelude::*;

verus! {

/// One version of one key: the column values written at one sequence number.
#[derive(Clone, Debug)]
pub struct Row {
    pub key: u64,
    pub seq: u64,
    pub cols: Vec<u64>,
}

/// `(k1, q1)` must come strictly before `(k2, q2)` in storage order:
/// key ascending, sequence descending.
pub open spec fn kv_precedes(k1: u64, q1: u64, k2: u64, q2: u64) -> bool {
    k1 < k2 || (k1 == k2 && q1 > q2)
}

/// Rows stand in strict storage order, so every (key, sequence) pair occurs
/// at most once.
pub open spec fn rows_sorted(s: Seq<Row>) -> bool {
    forall|i: int, j: int|
        0 <= i < j < s.len() ==> kv_precedes(s[i].key, s[i].seq, s[j].key, s[j].seq)
}

/// The store holds the column values `cols` for `key` at sequence `seq`.
pub open spec fn has_version(s: Seq<Row>, key: u64, seq: u64, cols: Seq<u64>) -> bool {
    exists|i: int| 0 <= i < s.len() && s[i].key == key && s[i].seq == seq && s[i].cols@ == cols
}

/// The store holds some version of `key` at sequence `seq`.
pub open spec fn has_seq(s: Seq<Row>, key: u64, seq: u64) -> bool {
    exists|i: int| 0 <= i < s.len() && s[i].key == key && s[i].seq == seq
}

/// Some version of `key` is visible at or before `bound`.
pub open spec fn visible(s: Seq<Row>, key: u64, bound: u64) -> bool {
    exists|i: int| 0 <= i < s.len() && s[i].key == key && s[i].seq <= bound
}

/// `(seq, cols)` is the newest version of `key` visible at `bound`: it is
/// stored, it lies at or before the bound, and no stored version of the key
/// at or before the bound has a greater sequence.
pub open spec fn newest_visible(s: Seq<Row>, key: u64, bound: u64, seq: u64, cols: Seq<u64>) -> bool {
    &&& has_version(s, key, seq, cols)
    &&& seq <= bound
    &&& forall|q: u64| has_seq(s, key, q) && q <= bound ==> q <= seq
}

/// Two stores hold exactly the same versions (regardless of layout).
pub open spec fn same_content(s1: Seq<Row>, s2: Seq<Row>) -> bool {
    forall|k: u64, q: u64, c: Seq<u64>| has_version(s1, k, q, c) <==> has_version(s2, k, q, c)
}

/// What a scan over `[lo, hi]` at bound `bound` returns: rows with strictly
/// ascending keys, all in range, each the newest version of its key visible
/// at the bound, and one for every key that has a visible version.
pub open spec fn scan_result_for(s: Seq<Row>, r: Seq<Row>, lo: u64, hi: u64, bound: u64) -> bool {
    &&& forall|a: int, b: int| 0 <= a < b < r.len() ==> r[a].key < r[b].key
    &&& forall|a: int| 0 <= a < r.len() ==> lo <= #[trigger] r[a].key <= hi
    &&& forall|a: int| 0 <= a < r.len()
        ==> newest_visible(s, #[trigger] r[a].key, bound, r[a].seq, r[a].cols@)
    &&& forall|k: u64| lo <= k <= hi && visible(s, k, bound)
        ==> exists|a: int| 0 <= a < r.len() && r[a].key == k
}

/// Some row of `r` carries key `k`.
pub open spec fn in_keys(r: Seq<Row>, k: u64) -> bool {
    exists|a: int| 0 <= a < r.len() && r[a].key == k
}

/// Two key-sorted row sequences over the same key set line up key by key.
proof fn lemma_sorted_key_sets_equal(r1: Seq<Row>, r2: Seq<Row>)
    requires
        forall|a: int, b: int| 0 <= a < b < r1.len() ==> r1[a].key < r1[b].key,
        forall|a: int, b: int| 0 <= a < b < r2.len() ==> r2[a].key < r2[b].key,
        forall|k: u64| in_keys(r1, k) <==> in_keys(r2, k),
    ensures
        r1.len() == r2.len(),
        forall|a: int| 0 <= a < r1.len() ==> #[trigger] r1[a].key == r2[a].key,
    decreases r1.len(),
{
    if r1.len() == 0 {
        if r2.len() > 0 {
            assert(in_keys(r2, r2[0].key));
            assert(in_keys(r1, r2[0].key));
            assert(false);
        }
    } else if r2.len() == 0 {
        assert(in_keys(r1, r1[0].key));
        assert(in_keys(r2, r1[0].key));
        assert(false);
    } else {
        assert(in_keys(r1, r1[0].key));
        let a = choose|a: int| 0 <= a < r2.len() && r2[a].key == r1[0].key;
        assert(in_keys(r2, r2[0].key));
        let b = choose|b: int| 0 <= b < r1.len() && r1[b].key == r2[0].key;
        if a > 0 {
            assert(r2[0].key < r2[a].key);
        }
        if b > 0 {
            assert(r1[0].key < r1[b].key);
        }
        assert(r1[0].key == r2[0].key);
        let t1 = r1.drop_first();
        let t2 = r2.drop_first();
        assert forall|k: u64| in_keys(t1, k) implies in_keys(t2, k) by {
            let c = choose|c: int| 0 <= c < t1.len() && t1[c].key == k;
            assert(r1[c + 1].key == k);
            assert(r1[0].key < k);
            assert(in_keys(r1, k));
            let d = choose|d: int| 0 <= d < r2.len() && r2[d].key == k;
            assert(d != 0);
            assert(t2[d - 1].key == k);
        }
        assert forall|k: u64| in_keys(t2, k) implies in_keys(t1, k) by {
            let c = choose|c: int| 0 <= c < t2.len() && t2[c].key == k;
            assert(r2[c + 1].key == k);
            assert(r2[0].key < k);
            assert(in_keys(r2, k));
            let d = choose|d: int| 0 <= d < r1.len() && r1[d].key == k;
            assert(d != 0);
            assert(t1[d - 1].key == k);
        }
        lemma_sorted_key_sets_equal(t1, t2);
        assert forall|c: int| 0 <= c < r1.len() implies #[trigger] r1[c].key == r2[c].key by {
            if c > 0 {
                assert(t1[c - 1].key == t2[c - 1].key);
            }
        }
    }
}

/// Scans are determined by content alone: over stores that hold the same
/// versions, any two results that meet the scan contract for the same range
/// and bound are identical row for row, column for column.
pub proof fn lemma_scan_deterministic(
    s1: Seq<Row>,
    s2: Seq<Row>,
    r1: Seq<Row>,
    r2: Seq<Row>,
    lo: u64,
    hi: u64,
    bound: u64,
)
    requires
        rows_sorted(s1),
        same_content(s1, s2),
        scan_result_for(s1, r1, lo, hi, bound),
        scan_result_for(s2, r2, lo, hi, bound),
    ensures
        r1.len() == r2.len(),
        forall|a: int| 0 <= a < r1.len() ==> #[trigger] r1[a].key == r2[a].key
            && r1[a].seq == r2[a].seq && r1[a].cols@ == r2[a].cols@,
{
    lemma_same_content_same_visibility(s1, s2);
    assert forall|k: u64| in_keys(r1, k) implies in_keys(r2, k) by {
        let a = choose|a: int| 0 <= a < r1.len() && r1[a].key == k;
        assert(newest_visible(s1, k, bound, r1[a].seq, r1[a].cols@));
        assert(has_version(s1, k, r1[a].seq, r1[a].cols@));
        let i = choose|i: int| 0 <= i < s1.len() && s1[i].key == k && s1[i].seq == r1[a].seq
            && s1[i].cols@ == r1[a].cols@;
        assert(visible(s1, k, bound));
        assert(visible(s2, k, bound));
    }
    assert forall|k: u64| in_keys(r2, k) implies in_keys(r1, k) by {
        let a = choose|a: int| 0 <= a < r2.len() && r2[a].key == k;
        assert(newest_visible(s2, k, bound, r2[a].seq, r2[a].cols@));
        assert(has_version(s2, k, r2[a].seq, r2[a].cols@));
        let i = choose|i: int| 0 <= i < s2.len() && s2[i].key == k && s2[i].seq == r2[a].seq
            && s2[i].cols@ == r2[a].cols@;
        assert(visible(s2, k, bound));
        assert(visible(s1, k, bound));
    }
    lemma_sorted_key_sets_equal(r1, r2);
    assert forall|a: int| 0 <= a < r1.len() implies #[trigger] r1[a].key == r2[a].key
        && r1[a].seq == r2[a].seq && r1[a].cols@ == r2[a].cols@ by {
        let k = r1[a].key;
        assert(newest_visible(s1, k, bound, r1[a].seq, r1[a].cols@));
        assert(newest_visible(s2, k, bound, r2[a].seq, r2[a].cols@));
        assert(newest_visible(s1, k, bound, r2[a].seq, r2[a].cols@));
        // Both are visible, so neither sequence exceeds the other.
        assert(has_version(s1, k, r1[a].seq, r1[a].cols@));
        assert(has_seq(s1, k, r1[a].seq));
        assert(has_version(s1, k, r2[a].seq, r2[a].cols@));
        assert(has_seq(s1, k, r2[a].seq));
        assert(r1[a].seq == r2[a].seq);
        lemma_version_unique(s1, k, r1[a].seq, r1[a].cols@, r2[a].cols@);
    }
}

/// In a sorted store a (key, sequence) pair determines its column values.
pub proof fn lemma_version_unique(s: Seq<Row>, key: u64, seq: u64, c1: Seq<u64>, c2: Seq<u64>)
    requires
        rows_sorted(s),
        has_version(s, key, seq, c1),
        has_version(s, key, seq, c2),
    ensures
        c1 == c2,
{
    let i1 = choose|i: int| 0 <= i < s.len() && s[i].key == key && s[i].seq == seq && s[i].cols@ == c1;
    let i2 = choose|i: int| 0 <= i < s.len() && s[i].key == key && s[i].seq == seq && s[i].cols@ == c2;
    if i1 < i2 {
        assert(kv_precedes(s[i1].key, s[i1].seq, s[i2].key, s[i2].seq));
    } else if i2 < i1 {
        assert(kv_precedes(s[i2].key, s[i2].seq, s[i1].key, s[i1].seq));
    }
}

/// Stores with the same versions agree on `has_seq`, `visible` and
/// `newest_visible` at every key and bound.
pub proof fn lemma_same_content_same_visibility(s1: Seq<Row>, s2: Seq<Row>)
    requires
        same_content(s1, s2),
    ensures
        forall|k: u64, q: u64| has_seq(s1, k, q) <==> has_seq(s2, k, q),
        forall|k: u64, b: u64| visible(s1, k, b) <==> visible(s2, k, b),
        forall|k: u64, b: u64, q: u64, c: Seq<u64>|
            newest_visible(s1, k, b, q, c) <==> newest_visible(s2, k, b, q, c),
{
    assert forall|k: u64, q: u64| has_seq(s1, k, q) implies has_seq(s2, k, q) by {
        let i = choose|i: int| 0 <= i < s1.len() && s1[i].key == k && s1[i].seq == q;
        assert(has_version(s1, k, q, s1[i].cols@));
        assert(has_version(s2, k, q, s1[i].cols@));
    }
    assert forall|k: u64, q: u64| has_seq(s2, k, q) implies has_seq(s1, k, q) by {
        let i = choose|i: int| 0 <= i < s2.len() && s2[i].key == k && s2[i].seq == q;
        assert(has_version(s2, k, q, s2[i].cols@));
        assert(has_version(s1, k, q, s2[i].cols@));
    }
    assert forall|k: u64, b: u64| visible(s1, k, b) implies visible(s2, k, b) by {
        let i = choose|i: int| 0 <= i < s1.len() && s1[i].key == k && s1[i].seq <= b;
        assert(has_version(s1, k, s1[i].seq, s1[i].cols@));
        assert(has_version(s2, k, s1[i].seq, s1[i].cols@));
        let j = choose|j: int| 0 <= j < s2.len() && s2[j].key == k && s2[j].seq == s1[i].seq
            && s2[j].cols@ == s1[i].cols@;
        assert(0 <= j < s2.len() && s2[j].key == k && s2[j].seq <= b);
    }
    assert forall|k: u64, b: u64| visible(s2, k, b) implies visible(s1, k, b) by {
        let i = choose|i: int| 0 <= i < s2.len() && s2[i].key == k && s2[i].seq <= b;
        assert(has_version(s2, k, s2[i].seq, s2[i].cols@));
        assert(has_version(s1, k, s2[i].seq, s2[i].cols@));
        let j = choose|j: int| 0 <= j < s1.len() && s1[j].key == k && s1[j].seq == s2[i].seq
            && s1[j].cols@ == s2[i].cols@;
        assert(0 <= j < s1.len() && s1[j].key == k && s1[j].seq <= b);
    }
}

/// Decides the storage order of two (key, sequence) pairs.
fn kv_precedes_exec(k1: u64, q1: u64, k2: u64, q2: u64) -> (b: bool)
    ensures
        b == kv_precedes(k1, q1, k2, q2),
{
    k1 < k2 || (k1 == k2 && q1 > q2)
}

/// A set of rows kept in storage order. The memtable's buffer and the model
/// of an SST's data blocks are both of this shape.
#[derive(Debug)]
pub struct SortedRows {
    pub rows: Vec<Row>,
}

impl SortedRows {
    /// Rows stand in strict storage order.
    pub open spec fn wf(self) -> bool {
        rows_sorted(self.rows@)
    }

    pub fn new() -> (r: SortedRows)
        ensures
            r.wf(),
            r.rows@.len() == 0,
    {
        SortedRows { rows: Vec::new() }
    }

    pub fn len(&self) -> (n: usize)
        ensures
            n == self.rows@.len(),
    {
        self.rows.len()
    }

    /// Inserts one version at its storage position. An already-present
    /// (key, sequence) pair has its column values replaced; every other
    /// version is kept unchanged.
    pub fn insert(&mut self, key: u64, seq: u64, cols: Vec<u64>)
        requires
            old(self).wf(),
        ensures
            final(self).wf(),
            has_version(final(self).rows@, key, seq, cols@),
            forall|k: u64, q: u64, c: Seq<u64>| !(k == key && q == seq) ==>
                (has_version(final(self).rows@, k, q, c) <==> has_version(old(self).rows@, k, q, c)),
            forall|c: Seq<u64>| has_version(final(self).rows@, key, seq, c) ==> c == cols@,
            final(self).rows@.len() == old(self).rows@.len()
                + (if has_seq(old(self).rows@, key, seq) { 0int } else { 1int }),
    {
        let ghost s0 = self.rows@;
        let mut i: usize = 0;
        while i < self.rows.len() && kv_precedes_exec(self.rows[i].key, self.rows[i].seq, key, seq)
            invariant
                0 <= i <= self.rows@.len(),
                self.rows@ == s0,
                rows_sorted(s0),
                forall|t: int| 0 <= t < i ==> kv_precedes(s0[t].key, s0[t].seq, key, seq),
            decreases self.rows@.len() - i,
        {
            i = i + 1;
        }
        if i < self.rows.len() && self.rows[i].key == key && self.rows[i].seq == seq {
            let ghost iold = i as int;
            self.rows.set(i, Row { key, seq, cols });
            proof {
                let s1 = self.rows@;
                assert(s1 == s0.update(iold, Row { key, seq, cols: self.rows[iold].cols }));
                assert forall|a: int, b: int| 0 <= a < b < s1.len()
                    implies kv_precedes(s1[a].key, s1[a].seq, s1[b].key, s1[b].seq) by {
                    assert(kv_precedes(s0[a].key, s0[a].seq, s0[b].key, s0[b].seq));
                }
                assert(has_version(s1, key, seq, cols@));
                assert forall|k: u64, q: u64, c: Seq<u64>| !(k == key && q == seq)
                    && has_version(s1, k, q, c) implies has_version(s0, k, q, c) by {
                    let t = choose|t: int| 0 <= t < s1.len() && s1[t].key == k && s1[t].seq == q
                        && s1[t].cols@ == c;
                    assert(t != iold);
                    assert(s0[t] == s1[t]);
                }
                assert forall|k: u64, q: u64, c: Seq<u64>| !(k == key && q == seq)
                    && has_version(s0, k, q, c) implies has_version(s1, k, q, c) by {
                    let t = choose|t: int| 0 <= t < s0.len() && s0[t].key == k && s0[t].seq == q
                        && s0[t].cols@ == c;
                    assert(t != iold);
                    assert(s1[t] == s0[t]);
                }
                assert forall|c: Seq<u64>| has_version(s1, key, seq, c) implies c == cols@ by {
                    let t = choose|t: int| 0 <= t < s1.len() && s1[t].key == key && s1[t].seq == seq
                        && s1[t].cols@ == c;
                    if t != iold {
                        // Two distinct positions would both carry (key, seq),
                        // against strict storage order.
                        if t < iold {
                            assert(kv_precedes(s1[t].key, s1[t].seq, s0[iold].key, s0[iold].seq));
                        } else {
                            assert(kv_precedes(s0[iold].key, s0[iold].seq, s1[t].key, s1[t].seq));
                        }
                    }
                }
                assert(has_seq(s0, key, seq));
            }
        } else {
            let ghost iold = i as int;
            proof {
                // No stored pair equals (key, seq): earlier rows strictly
                // precede it, later rows strictly follow it.
                assert forall|t: int| iold <= t < s0.len()
                    implies kv_precedes(key, seq, s0[t].key, s0[t].seq) by {
                    if t > iold {
                        assert(kv_precedes(s0[iold].key, s0[iold].seq, s0[t].key, s0[t].seq));
                    }
                }
            }
            self.rows.insert(i, Row { key, seq, cols });
            proof {
                let s1 = self.rows@;
                assert(s1 == s0.insert(iold, Row { key, seq, cols: self.rows[iold].cols }));
                assert forall|t: int| 0 <= t < s1.len() implies (if t < iold {
                    s1[t] == s0[t]
                } else if t == iold {
                    s1[t].key == key && s1[t].seq == seq && s1[t].cols@ == cols@
                } else {
                    s1[t] == s0[t - 1]
                }) by {}
                assert forall|a: int, b: int| 0 <= a < b < s1.len()
                    implies kv_precedes(s1[a].key, s1[a].seq, s1[b].key, s1[b].seq) by {
                    if a < iold && b == iold {
                        assert(kv_precedes(s0[a].key, s0[a].seq, key, seq));
                    } else if a == iold && b > iold {
                        assert(kv_precedes(key, seq, s0[b - 1].key, s0[b - 1].seq));
                    } else if a < iold && b > iold {
                        assert(kv_precedes(s0[a].key, s0[a].seq, s0[b - 1].key, s0[b - 1].seq));
                    } else if a > iold {
                        assert(kv_precedes(s0[a - 1].key, s0[a - 1].seq, s0[b - 1].key, s0[b - 1].seq));
                    } else if b < iold {
                        assert(kv_precedes(s0[a].key, s0[a].seq, s0[b].key, s0[b].seq));
                    }
                }
                assert(s1[iold].key == key && s1[iold].seq == seq && s1[iold].cols@ == cols@);
                assert(has_version(s1, key, seq, cols@));
                assert forall|k: u64, q: u64, c: Seq<u64>| !(k == key && q == seq)
                    && has_version(s1, k, q, c) implies has_version(s0, k, q, c) by {
                    let t = choose|t: int| 0 <= t < s1.len() && s1[t].key == k && s1[t].seq == q
                        && s1[t].cols@ == c;
                    assert(t != iold);
                    if t < iold {
                        assert(s0[t].key == k && s0[t].seq == q && s0[t].cols@ == c);
                    } else {
                        assert(s0[t - 1].key == k && s0[t - 1].seq == q && s0[t - 1].cols@ == c);
                    }
                }
                assert forall|k: u64, q: u64, c: Seq<u64>| !(k == key && q == seq)
                    && has_version(s0, k, q, c) implies has_version(s1, k, q, c) by {
                    let t = choose|t: int| 0 <= t < s0.len() && s0[t].key == k && s0[t].seq == q
                        && s0[t].cols@ == c;
                    if t < iold {
                        assert(s1[t].key == k && s1[t].seq == q && s1[t].cols@ == c);
                    } else {
                        assert(s1[t + 1].key == k && s1[t + 1].seq == q && s1[t + 1].cols@ == c);
                    }
                }
                assert forall|c: Seq<u64>| has_version(s1, key, seq, c) implies c == cols@ by {
                    let t = choose|t: int| 0 <= t < s1.len() && s1[t].key == key && s1[t].seq == seq
                        && s1[t].cols@ == c;
                    if t < iold {
                        assert(kv_precedes(s0[t].key, s0[t].seq, key, seq));
                    } else if t > iold {
                        assert(kv_precedes(key, seq, s0[t - 1].key, s0[t - 1].seq));
                    }
                }
                assert forall|t: int| 0 <= t < s0.len()
                    implies !(s0[t].key == key && s0[t].seq == seq) by {
                    if t < iold {
                        assert(kv_precedes(s0[t].key, s0[t].seq, key, seq));
                    } else {
                        assert(kv_precedes(key, seq, s0[t].key, s0[t].seq));
                    }
                }
                assert(!has_seq(s0, key, seq));
            }
        }
    }

    /// Sorted scan over `[lo, hi]` at visibility bound `bound`: exactly one
    /// row per visible key, carrying the greatest stored sequence at or
    /// below the bound.
    pub fn scan(&self, lo: u64, hi: u64, bound: u64) -> (r: Vec<Row>)
        requires
            self.wf(),
        ensures
            scan_result_for(self.rows@, r@, lo, hi, bound),
    {
        let ghost gs = self.rows@;
        let mut r: Vec<Row> = Vec::new();
        let mut i: usize = 0;
        while i < self.rows.len()
            invariant
                0 <= i <= gs.len(),
                self.rows@ == gs,
                rows_sorted(gs),
                forall|a: int, b: int| 0 <= a < b < r@.len() ==> r@[a].key < r@[b].key,
                i < gs.len() ==> forall|a: int| 0 <= a < r@.len()
                    ==> #[trigger] r@[a].key <= gs[i as int].key,
                forall|a: int| 0 <= a < r@.len() ==> lo <= #[trigger] r@[a].key <= hi,
                forall|a: int| 0 <= a < r@.len()
                    ==> newest_visible(gs, r@[a].key, bound, r@[a].seq, r@[a].cols@),
                forall|t: int| 0 <= t < i && lo <= gs[t].key <= hi && gs[t].seq <= bound
                    ==> exists|a: int| 0 <= a < r@.len() && r@[a].key == gs[t].key,
            decreases gs.len() - i,
        {
            let rk = self.rows[i].key;
            let rq = self.rows[i].seq;
            let dup = r.len() > 0 && r[r.len() - 1].key == rk;
            if lo <= rk && rk <= hi && rq <= bound && !dup {
                proof {
                    let ii = i as int;
                    // Every earlier stored version of this key lies above the
                    // bound: a visible one would already stand in the result,
                    // and then the duplicate test would have caught it.
                    assert forall|t: int| 0 <= t < ii && gs[t].key == rk
                        implies gs[t].seq > bound by {
                        assert(kv_precedes(gs[t].key, gs[t].seq, gs[ii].key, gs[ii].seq));
                        if gs[t].seq <= bound {
                            let a = choose|a: int| 0 <= a < r@.len() && r@[a].key == gs[t].key;
                            if a < r@.len() - 1 {
                                assert(r@[a].key < r@[r@.len() - 1].key);
                                assert(r@[r@.len() - 1].key <= gs[ii].key);
                            }
                        }
                    }
                    assert forall|q: u64| has_seq(gs, rk, q) && q <= bound implies q <= rq by {
                        let t = choose|t: int| 0 <= t < gs.len() && gs[t].key == rk && gs[t].seq == q;
                        if t > ii {
                            assert(kv_precedes(gs[ii].key, gs[ii].seq, gs[t].key, gs[t].seq));
                        }
                    }
                    assert(gs[i as int].cols@ == self.rows[i as int].cols@);
                }
                let row = Row { key: rk, seq: rq, cols: clone_cols(&self.rows[i].cols) };
                let ghost r_prev = r@;
                proof {
                    assert(has_version(gs, rk, rq, row.cols@));
                }
                r.push(row);
                proof {
                    let ii = i as int;
                    assert(r@ == r_prev.push(row));
                    assert forall|t: int| 0 <= t < ii + 1 && lo <= gs[t].key <= hi
                        && gs[t].seq <= bound
                        implies exists|a: int| 0 <= a < r@.len() && r@[a].key == gs[t].key by {
                        if t < ii {
                            let a = choose|a: int| 0 <= a < r_prev.len() && r_prev[a].key == gs[t].key;
                            assert(r@[a].key == gs[t].key);
                        } else {
                            assert(r@[r@.len() - 1].key == gs[t].key);
                        }
                    }
                }
            } else {
                proof {
                    let ii = i as int;
                    if lo <= rk <= hi && rq <= bound {
                        // Skipped only as a duplicate: the key's newest visible
                        // version is already the last row of the result.
                        assert(r@[r@.len() - 1].key == gs[ii].key);
                    }
                    assert forall|t: int| 0 <= t < ii + 1 && lo <= gs[t].key <= hi
                        && gs[t].seq <= bound
                        implies exists|a: int| 0 <= a < r@.len() && r@[a].key == gs[t].key by {
                        if t == ii {
                            assert(r@[r@.len() - 1].key == gs[t].key);
                        }
                    }
                }
            }
            i = i + 1;
            proof {
                if i < gs.len() {
                    assert(kv_precedes(gs[i - 1].key, gs[i - 1].seq, gs[i as int].key, gs[i as int].seq));
                }
            }
        }
        r
    }

    /// A deep copy: same rows, hence the same stored versions.
    pub fn duplicate(&self) -> (r: SortedRows)
        requires
            self.wf(),
        ensures
            r.wf(),
            r.rows@.len() == self.rows@.len(),
            forall|t: int| 0 <= t < r.rows@.len() ==> r.rows@[t].key == self.rows@[t].key
                && r.rows@[t].seq == self.rows@[t].seq && r.rows@[t].cols@ == self.rows@[t].cols@,
            same_content(r.rows@, self.rows@),
    {
        let mut out: Vec<Row> = Vec::new();
        let mut i: usize = 0;
        while i < self.rows.len()
            invariant
                0 <= i <= self.rows@.len(),
                out@.len() == i,
                forall|t: int| 0 <= t < i ==> out@[t].key == self.rows@[t].key
                    && out@[t].seq == self.rows@[t].seq && out@[t].cols@ == self.rows@[t].cols@,
            decreases self.rows@.len() - i,
        {
            let row = Row {
                key: self.rows[i].key,
                seq: self.rows[i].seq,
                cols: clone_cols(&self.rows[i].cols),
            };
            out.push(row);
            i = i + 1;
        }
        let result = SortedRows { rows: out };
        proof {
            assert forall|a: int, b: int| 0 <= a < b < result.rows@.len()
                implies kv_precedes(result.rows@[a].key, result.rows@[a].seq,
                    result.rows@[b].key, result.rows@[b].seq) by {
                assert(kv_precedes(self.rows@[a].key, self.rows@[a].seq,
                    self.rows@[b].key, self.rows@[b].seq));
            }
            assert forall|k: u64, q: u64, c: Seq<u64>| has_version(result.rows@, k, q, c)
                implies has_version(self.rows@, k, q, c) by {
                let t = choose|t: int| 0 <= t < result.rows@.len() && result.rows@[t].key == k
                    && result.rows@[t].seq == q && result.rows@[t].cols@ == c;
                assert(self.rows@[t].key == k && self.rows@[t].seq == q && self.rows@[t].cols@ == c);
            }
            assert forall|k: u64, q: u64, c: Seq<u64>| has_version(self.rows@, k, q, c)
                implies has_version(result.rows@, k, q, c) by {
                let t = choose|t: int| 0 <= t < self.rows@.len() && self.rows@[t].key == k
                    && self.rows@[t].seq == q && self.rows@[t].cols@ == c;
                assert(result.rows@[t].key == k && result.rows@[t].seq == q
                    && result.rows@[t].cols@ == c);
            }
        }
        result
    }
}

/// Merges two sorted stores of one table into one, keeping every version of
/// both. This is the row merge under compaction and under reads that cross a
/// memtable and SSTs; the inputs carry distinct sequence stamps because one
/// table never stamps a sequence number twice.
pub fn merge_rows(a: &SortedRows, b: &SortedRows) -> (out: SortedRows)
    requires
        a.wf(),
        b.wf(),
        forall|k: u64, q: u64| !(has_seq(a.rows@, k, q) && #[trigger] has_seq(b.rows@, k, q)),
    ensures
        out.wf(),
        forall|k: u64, q: u64, c: Seq<u64>| #[trigger] has_version(out.rows@, k, q, c)
            <==> has_version(a.rows@, k, q, c) || has_version(b.rows@, k, q, c),
{
    let ghost ga = a.rows@;
    let ghost gb = b.rows@;
    let mut out = a.duplicate();
    let mut t: usize = 0;
    while t < b.rows.len()
        invariant
            0 <= t <= gb.len(),
            b.rows@ == gb,
            a.rows@ == ga,
            rows_sorted(ga),
            rows_sorted(gb),
            forall|k: u64, q: u64| !(has_seq(ga, k, q) && #[trigger] has_seq(gb, k, q)),
            out.wf(),
            forall|k: u64, q: u64, c: Seq<u64>| #[trigger] has_version(out.rows@, k, q, c)
                <==> has_version(ga, k, q, c) || has_version(gb.subrange(0, t as int), k, q, c),
        decreases gb.len() - t,
    {
        let ghost ti = t as int;
        let bk = b.rows[t].key;
        let bq = b.rows[t].seq;
        let bc = clone_cols(&b.rows[t].cols);
        let ghost pre = out.rows@;
        proof {
            // The stamp (bk, bq) is new to `out`: it is b's, so not a's, and
            // strict storage order keeps b itself from repeating it.
            assert(has_seq(gb, bk, bq));
            assert forall|c: Seq<u64>| !has_version(pre, bk, bq, c) by {
                if has_version(pre, bk, bq, c) {
                    if has_version(ga, bk, bq, c) {
                        assert(has_seq(ga, bk, bq));
                    } else {
                        assert(has_version(gb.subrange(0, t as int), bk, bq, c));
                        let u = choose|u: int| 0 <= u < t && gb.subrange(0, t as int)[u].key == bk
                            && gb.subrange(0, t as int)[u].seq == bq
                            && gb.subrange(0, t as int)[u].cols@ == c;
                        assert(kv_precedes(gb[u].key, gb[u].seq, gb[t as int].key, gb[t as int].seq));
                    }
                }
            }
        }
        out.insert(bk, bq, bc);
        proof {
            assert(gb.subrange(0, ti + 1) =~= gb.subrange(0, ti).push(gb[ti]));
            assert forall|k: u64, q: u64, c: Seq<u64>| #[trigger] has_version(out.rows@, k, q, c)
                <==> has_version(ga, k, q, c) || has_version(gb.subrange(0, ti + 1), k, q, c) by {
                if has_version(out.rows@, k, q, c) {
                    if k == bk && q == bq {
                        assert(c == bc@);
                        assert(gb.subrange(0, ti + 1)[ti].key == k
                            && gb.subrange(0, ti + 1)[ti].seq == q
                            && gb.subrange(0, ti + 1)[ti].cols@ == c);
                    } else {
                        assert(has_version(pre, k, q, c));
                        if has_version(gb.subrange(0, ti), k, q, c) {
                            let u = choose|u: int| 0 <= u < ti && gb.subrange(0, ti)[u].key == k
                                && gb.subrange(0, ti)[u].seq == q
                                && gb.subrange(0, ti)[u].cols@ == c;
                            assert(gb.subrange(0, ti + 1)[u].key == k
                                && gb.subrange(0, ti + 1)[u].seq == q
                                && gb.subrange(0, ti + 1)[u].cols@ == c);
                        }
                    }
                }
                if has_version(ga, k, q, c) || has_version(gb.subrange(0, ti + 1), k, q, c) {
                    if k == bk && q == bq {
                        if has_version(ga, k, q, c) {
                            let w = choose|w: int| 0 <= w < ga.len() && ga[w].key == k
                                && ga[w].seq == q && ga[w].cols@ == c;
                            assert(has_seq(ga, bk, bq));
                            assert(false);
                        } else {
                            let u = choose|u: int| 0 <= u < ti + 1
                                && (#[trigger] gb.subrange(0, ti + 1)[u]).key == k
                                && gb.subrange(0, ti + 1)[u].seq == q
                                && gb.subrange(0, ti + 1)[u].cols@ == c;
                            if u < ti {
                                assert(kv_precedes(gb[u].key, gb[u].seq, gb[ti].key, gb[ti].seq));
                                assert(false);
                            }
                            assert(c == bc@);
                            assert(has_version(out.rows@, bk, bq, bc@));
                        }
                    } else {
                        if has_version(gb.subrange(0, ti + 1), k, q, c) {
                            let u = choose|u: int| 0 <= u < ti + 1
                                && (#[trigger] gb.subrange(0, ti + 1)[u]).key == k
                                && gb.subrange(0, ti + 1)[u].seq == q
                                && gb.subrange(0, ti + 1)[u].cols@ == c;
                            assert(u < ti);
                            assert(gb.subrange(0, ti)[u].key == k
                                && gb.subrange(0, ti)[u].seq == q
                                && gb.subrange(0, ti)[u].cols@ == c);
                            assert(has_version(gb.subrange(0, ti), k, q, c));
                            assert(has_version(pre, k, q, c));
                        } else {
                            assert(has_version(ga, k, q, c));
                            assert(has_version(pre, k, q, c));
                        }
                    }
                }
            }
        }
        t = t + 1;
        proof {
            assert(gb.subrange(0, t as int) == gb.subrange(0, ti + 1));
        }
    }
    proof {
        assert(gb.subrange(0, gb.len() as int) =~= gb);
    }
    out
}

/// Copies one row's column values.
pub(crate) fn clone_cols(cols: &Vec<u64>) -> (r: Vec<u64>)
    ensures
        r@ == cols@,
{
    let mut out: Vec<u64> = Vec::new();
    let mut i: usize = 0;
    while i < cols.len()
        invariant
            0 <= i <= cols@.len(),
            out@ == cols@.subrange(0, i as int),
        decreases cols@.len() - i,
    {
        out.push(cols[i]);
        i = i + 1;
    }
    proof {
        assert(out@ == cols@.subrange(0, cols@.len() as int));
        assert(cols@.subrange(0, cols@.len() as int) == cols@);
    }
    out
}

} // verus!
