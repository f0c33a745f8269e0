//! A space: a group of tables sharing one write-buffer byte budget, the unit
//! of backpressure.
//!
//! The aggregate of the member tables' buffered bytes is the shared counter
//! the flush controller checks against `space_write_buffer_size`; a zero
//! ceiling disables the check. When the ceiling is reached, the busiest
//! member table is flushed before any write is rejected.

use vstd::prelude::*;

use crate::flush::pick_flush_victim;
use crate::memtable::sat_add;

verus! {

/// One member table's write-buffer usage, as the space accounts it.
#[derive(Clone, Copy, Debug)]
pub struct TableUsage {
    pub table_id: u64,
    pub bytes: u64,
}

/// The saturating sum of the members' buffered bytes.
pub open spec fn usage_total(s: Seq<TableUsage>) -> int
    decreases s.len(),
{
    if s.len() == 0 {
        0
    } else {
        sat_add(usage_total(s.drop_last()), s.last().bytes as int)
    }
}

/// Whether some entry accounts for `table_id`.
pub open spec fn has_table(s: Seq<TableUsage>, table_id: u64) -> bool {
    exists|i: int| 0 <= i < s.len() && (#[trigger] s[i]).table_id == table_id
}

/// A group of tables sharing one write-buffer budget. Tables are listed
/// oldest first.
#[derive(Debug)]
pub struct Space {
    pub space_id: u64,
    pub tables: Vec<TableUsage>,
    /// The shared ceiling in bytes; zero disables it.
    pub write_buffer_size: u64,
}

impl Space {
    /// One entry per member table: the shared counter is an account, not a
    /// log, so a table's usage is replaced, never double-counted.
    pub open spec fn wf(self) -> bool {
        forall|i: int, j: int| 0 <= i < j < self.tables@.len()
            ==> (#[trigger] self.tables@[i]).table_id != (#[trigger] self.tables@[j]).table_id
    }

    pub fn new(space_id: u64, write_buffer_size: u64) -> (s: Space)
        ensures
            s.wf(),
            s.space_id == space_id,
            s.write_buffer_size == write_buffer_size,
            s.tables@.len() == 0,
    {
        Space { space_id, tables: Vec::new(), write_buffer_size }
    }

    /// Registers one member table's current usage: an existing entry for the
    /// table is replaced in place (keeping its age position), a new table is
    /// appended as youngest. Every memtable byte-size change pairs with such
    /// an update, so the aggregate never double-counts a table.
    pub fn record_usage(&mut self, table_id: u64, bytes: u64)
        requires
            old(self).wf(),
        ensures
            final(self).wf(),
            final(self).space_id == old(self).space_id,
            final(self).write_buffer_size == old(self).write_buffer_size,
            final(self).tables@.len() == old(self).tables@.len()
                + (if has_table(old(self).tables@, table_id) { 0int } else { 1int }),
            forall|i: int| 0 <= i < old(self).tables@.len()
                && (#[trigger] old(self).tables@[i]).table_id != table_id
                ==> final(self).tables@[i] == old(self).tables@[i],
            forall|i: int| 0 <= i < old(self).tables@.len()
                && (#[trigger] old(self).tables@[i]).table_id == table_id
                ==> final(self).tables@[i] == (TableUsage { table_id, bytes }),
            !has_table(old(self).tables@, table_id)
                ==> final(self).tables@.last() == (TableUsage { table_id, bytes }),
    {
        let ghost t0 = self.tables@;
        let mut i: usize = 0;
        while i < self.tables.len()
            invariant
                0 <= i <= t0.len(),
                self.tables@ == t0,
                old(self).tables@ == t0,
                self.space_id == old(self).space_id,
                self.write_buffer_size == old(self).write_buffer_size,
                forall|a: int, b: int| 0 <= a < b < t0.len()
                    ==> (#[trigger] t0[a]).table_id != (#[trigger] t0[b]).table_id,
                forall|t: int| 0 <= t < i ==> (#[trigger] t0[t]).table_id != table_id,
            decreases t0.len() - i,
        {
            if self.tables[i].table_id == table_id {
                self.tables.set(i, TableUsage { table_id, bytes });
                proof {
                    assert(self.tables@ == t0.update(i as int, TableUsage { table_id, bytes }));
                    assert(has_table(t0, table_id));
                    assert forall|a: int, b: int| 0 <= a < b < self.tables@.len()
                        implies (#[trigger] self.tables@[a]).table_id
                            != (#[trigger] self.tables@[b]).table_id by {
                        assert(t0[a].table_id != t0[b].table_id);
                    }
                    assert forall|t: int| 0 <= t < t0.len()
                        && (#[trigger] t0[t]).table_id == table_id
                        implies self.tables@[t] == (TableUsage { table_id, bytes }) by {
                        if t < i as int {
                        } else if t > i as int {
                            assert(t0[i as int].table_id != t0[t].table_id);
                        }
                    }
                }
                return ;
            }
            i = i + 1;
        }
        proof {
            if has_table(t0, table_id) {
                let t = choose|t: int| 0 <= t < t0.len() && (#[trigger] t0[t]).table_id == table_id;
                assert(false);
            }
        }
        self.tables.push(TableUsage { table_id, bytes });
    }

    /// The aggregate buffered bytes of the member tables, saturating.
    pub fn total_bytes(&self) -> (n: u64)
        ensures
            n == usage_total(self.tables@),
    {
        let mut n: u64 = 0;
        let mut i: usize = 0;
        while i < self.tables.len()
            invariant
                0 <= i <= self.tables@.len(),
                n == usage_total(self.tables@.subrange(0, i as int)),
            decreases self.tables@.len() - i,
        {
            let b = self.tables[i].bytes;
            if n > u64::MAX - b {
                n = u64::MAX;
            } else {
                n = n + b;
            }
            i = i + 1;
            proof {
                let pre = self.tables@.subrange(0, i as int - 1);
                let now = self.tables@.subrange(0, i as int);
                assert(now.drop_last() =~= pre);
                assert(now.last() == self.tables@[i as int - 1]);
            }
        }
        proof {
            assert(self.tables@.subrange(0, self.tables@.len() as int) =~= self.tables@);
        }
        n
    }

    /// Whether the shared ceiling forces a flush, and of which member: the
    /// busiest table, oldest first among equals, so a flush is triggered
    /// before any write is rejected.
    pub fn flush_needed(&self) -> (r: Option<usize>)
        ensures
            r is Some <==> (self.write_buffer_size > 0
                && usage_total(self.tables@) >= self.write_buffer_size
                && self.tables@.len() > 0),
            r is Some ==> {
                let v = r.unwrap() as int;
                &&& 0 <= v < self.tables@.len()
                &&& forall|t: int| 0 <= t < self.tables@.len()
                    ==> (#[trigger] self.tables@[t]).bytes <= self.tables@[v].bytes
                &&& forall|t: int| 0 <= t < v ==> (#[trigger] self.tables@[t]).bytes
                    < self.tables@[v].bytes
            },
    {
        if self.write_buffer_size == 0 {
            return None;
        }
        let total = self.total_bytes();
        if total < self.write_buffer_size {
            return None;
        }
        let mut bytes: Vec<u64> = Vec::new();
        let mut i: usize = 0;
        while i < self.tables.len()
            invariant
                0 <= i <= self.tables@.len(),
                bytes@.len() == i,
                forall|t: int| 0 <= t < i
                    ==> #[trigger] bytes@[t] == self.tables@[t].bytes,
            decreases self.tables@.len() - i,
        {
            bytes.push(self.tables[i].bytes);
            i = i + 1;
        }
        let r = pick_flush_victim(&bytes);
        proof {
            if r is Some {
                let v = r.unwrap() as int;
                assert(bytes@[v] == self.tables@[v].bytes);
                assert forall|t: int| 0 <= t < self.tables@.len()
                    implies (#[trigger] self.tables@[t]).bytes <= self.tables@[v].bytes by {
                    assert(bytes@[t] == self.tables@[t].bytes);
                    assert(bytes@[t] <= bytes@[v]);
                }
                assert forall|t: int| 0 <= t < v
                    implies (#[trigger] self.tables@[t]).bytes < self.tables@[v].bytes by {
                    assert(bytes@[t] == self.tables@[t].bytes);
                    assert(bytes@[t] < bytes@[v]);
                }
            }
        }
        r
    }
}

} // verus!
