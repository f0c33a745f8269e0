//! A table: its write-ahead log, its active memtable, its FIFO queue of
//! frozen memtables and its manifest-derived state.
//!
//! The write path is single-writer: a row goes durably to the log first and
//! becomes visible in the active memtable second, stamped with the sequence
//! number the log assigned. Freezing is atomic towards writers: the active
//! memtable moves to the back of the frozen queue and a fresh one takes its
//! place. Flush takes the oldest frozen memtable (FIFO, so flushed sequence
//! ranges never overlap), writes it as an SST and hands back the manifest
//! edit that makes the file visible.

use vstd::prelude::*;

use crate::manifest::{ManifestEdit, TableState};
use crate::{FileId, TableId};
use crate::memtable::Memtable;
use crate::rows::{has_version, same_content};
use crate::sst::{write_sst, SstFile};
use crate::wal::{wal_has, TableWal, WalEntry};

verus! {

/// Durability before visibility: every version the memtable shows was
/// already appended to the log under the same stamp.
pub open spec fn mem_sound(m: Memtable, log: Seq<WalEntry>) -> bool {
    forall|k: u64, q: u64, c: Seq<u64>| #[trigger] has_version(m.contents(), k, q, c)
        ==> wal_has(log, q, k, c)
}

pub struct Table {
    pub table_id: TableId,
    pub wal: TableWal,
    pub active: Memtable,
    pub frozen: Vec<Memtable>,
    pub state: TableState,
}

impl Table {
    /// Components well-formed, and every memtable only holds sequence
    /// numbers the log has already assigned.
    pub open spec fn wf(self) -> bool {
        &&& self.wal.wf()
        &&& self.active.wf()
        &&& self.state.wf()
        &&& self.active.spec_last_seq() < self.wal.next_seq
        &&& forall|i: int| 0 <= i < self.frozen@.len() ==> (#[trigger] self.frozen@[i]).wf()
            && self.frozen@[i].spec_last_seq() < self.wal.next_seq
        &&& mem_sound(self.active, self.wal.entries@)
        &&& forall|i: int| 0 <= i < self.frozen@.len()
            ==> mem_sound(#[trigger] self.frozen@[i], self.wal.entries@)
    }

    pub fn new(table_id: TableId) -> (t: Table)
        ensures
            t.wf(),
            t.table_id == table_id,
            t.active.contents().len() == 0,
            t.frozen@.len() == 0,
            t.wal.entries@.len() == 0,
    {
        Table {
            table_id,
            wal: TableWal::new(),
            active: Memtable::new(),
            frozen: Vec::new(),
            state: TableState::new(),
        }
    }

    /// One acknowledged write: the row is durable in the log before it is
    /// visible in the active memtable, both under the sequence number the
    /// log assigned, which the call returns.
    pub fn write(&mut self, key: u64, cols: Vec<u64>) -> (seq: u64)
        requires
            old(self).wf(),
            old(self).wal.next_seq < u64::MAX,
        ensures
            final(self).wf(),
            seq == old(self).wal.next_seq,
            final(self).wal.entries@.len() == old(self).wal.entries@.len() + 1,
            final(self).wal.entries@.last().seq == seq,
            final(self).wal.entries@.last().key == key,
            final(self).wal.entries@.last().cols@ == cols@,
            has_version(final(self).active.contents(), key, seq, cols@),
            forall|k: u64, q: u64, c: Seq<u64>| !(k == key && q == seq)
                ==> (has_version(final(self).active.contents(), k, q, c)
                    <==> has_version(old(self).active.contents(), k, q, c)),
            final(self).frozen@ == old(self).frozen@,
    {
        let wal_cols = crate::rows::clone_cols(&cols);
        let ghost e0 = self.wal.entries@;
        let ghost a0 = self.active.contents();
        let seq = self.wal.append_row(key, wal_cols);
        self.active.put(key, cols, seq);
        proof {
            let e1 = self.wal.entries@;
            assert forall|q: u64, k: u64, c: Seq<u64>| wal_has(e0, q, k, c)
                implies wal_has(e1, q, k, c) by {
                let t = choose|t: int| 0 <= t < e0.len() && e0[t].seq == q && e0[t].key == k
                    && e0[t].cols@ == c;
                assert(e1[t] == e0[t]);
            }
            assert forall|k: u64, q: u64, c: Seq<u64>|
                #[trigger] has_version(self.active.contents(), k, q, c)
                implies wal_has(e1, q, k, c) by {
                if k == key && q == seq {
                    assert(c == cols@);
                    assert(e1.last().seq == q && e1.last().key == k && e1.last().cols@ == c);
                    assert(e1[e1.len() - 1].seq == q && e1[e1.len() - 1].key == k
                        && e1[e1.len() - 1].cols@ == c);
                } else {
                    assert(has_version(a0, k, q, c));
                    assert(wal_has(e0, q, k, c));
                }
            }
            assert forall|i: int| 0 <= i < self.frozen@.len()
                implies mem_sound(#[trigger] self.frozen@[i], e1) by {
                assert forall|k: u64, q: u64, c: Seq<u64>|
                    #[trigger] has_version(self.frozen@[i].contents(), k, q, c)
                    implies wal_has(e1, q, k, c) by {
                    assert(mem_sound(old(self).frozen@[i], e0));
                    assert(wal_has(e0, q, k, c));
                }
            }
        }
        seq
    }

    /// Freezes the active memtable: new writes route to a fresh one, and the
    /// frozen memtable queues behind its elders for flushing, so flush
    /// output sequence ranges never overlap.
    pub fn freeze(&mut self)
        requires
            old(self).wf(),
        ensures
            final(self).wf(),
            final(self).frozen@.len() == old(self).frozen@.len() + 1,
            forall|i: int| 0 <= i < old(self).frozen@.len()
                ==> #[trigger] final(self).frozen@[i] == old(self).frozen@[i],
            final(self).frozen@.last() == old(self).active,
            final(self).active.contents().len() == 0,
            final(self).active.spec_last_seq() == 0,
            final(self).wal == old(self).wal,
    {
        let mut fresh = Memtable::new();
        core::mem::swap(&mut self.active, &mut fresh);
        self.frozen.push(fresh);
        proof {
            let e = self.wal.entries@;
            assert forall|k: u64, q: u64, c: Seq<u64>|
                #[trigger] has_version(self.active.contents(), k, q, c)
                implies wal_has(e, q, k, c) by {
                // The fresh memtable shows nothing: no witness index exists.
                let t = choose|t: int| 0 <= t < self.active.contents().len()
                    && self.active.contents()[t].key == k
                    && self.active.contents()[t].seq == q
                    && self.active.contents()[t].cols@ == c;
                assert(0 <= t < 0);
            }
            assert forall|i: int| 0 <= i < self.frozen@.len()
                implies mem_sound(#[trigger] self.frozen@[i], e) by {
                if i < self.frozen@.len() - 1 {
                    assert(self.frozen@[i] == old(self).frozen@[i]);
                    assert(mem_sound(old(self).frozen@[i], e));
                } else {
                    assert(self.frozen@[i] == old(self).active);
                    assert(mem_sound(old(self).active, e));
                }
            }
        }
    }

    /// Flushes the oldest frozen memtable into an immutable file and returns
    /// it with the manifest edit that makes it visible: the file holds
    /// exactly the memtable's versions, and the edit adds the file and moves
    /// the watermark to the memtable's last sequence number. The edit must be
    /// appended durably before the file joins the live set.
    pub fn flush_oldest(&mut self, file_id: FileId) -> (r: Option<(SstFile, ManifestEdit)>)
        requires
            old(self).wf(),
        ensures
            final(self).wf(),
            r is Some <==> old(self).frozen@.len() > 0,
            r is None ==> final(self).frozen@ == old(self).frozen@,
            r is Some ==> {
                let (sst, edit) = r.unwrap();
                &&& sst.wf()
                &&& sst.meta.file_id == file_id
                &&& same_content(sst.data.rows@, old(self).frozen@[0].contents())
                &&& edit.added@.len() == 1 && edit.added@[0] == file_id
                &&& edit.removed@.len() == 0
                &&& edit.watermark == old(self).frozen@[0].spec_last_seq()
                &&& final(self).frozen@ == old(self).frozen@.subrange(
                    1,
                    old(self).frozen@.len() as int,
                )
            },
            final(self).active == old(self).active,
            final(self).wal == old(self).wal,
    {
        if self.frozen.len() == 0 {
            return None;
        }
        let oldest = self.frozen.remove(0);
        proof {
            assert forall|i: int| 0 <= i < self.frozen@.len()
                implies (#[trigger] self.frozen@[i]).wf()
                    && self.frozen@[i].spec_last_seq() < self.wal.next_seq
                    && mem_sound(self.frozen@[i], self.wal.entries@) by {
                assert(self.frozen@[i] == old(self).frozen@[i + 1]);
                assert(mem_sound(old(self).frozen@[i + 1], self.wal.entries@));
            }
        }
        let sst = write_sst(file_id, oldest.sorted_rows());
        let mut added: Vec<u64> = Vec::new();
        added.push(file_id);
        let edit = ManifestEdit {
            added,
            removed: Vec::new(),
            watermark: oldest.last_sequence(),
        };
        Some((sst, edit))
    }
}

} // verus!
