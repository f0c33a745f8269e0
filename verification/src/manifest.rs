//! The manifest: an append-only, durable log of metadata edits, the sole
//! source of truth for which SSTs exist for a table and up to which sequence
//! number its log is already persisted.
//!
//! Live state is the fold of the edits; a checkpoint collapses the log into
//! one equivalent edit so that recovery never replays from genesis. An edit
//! is appended durably before any SST it adds becomes visible to readers, and
//! edits of one table apply in strict append order.

use vstd::prelude::*;

use crate::FileId;

verus! {

broadcast use vstd::seq_lib::lemma_seq_contains_after_push;

/// One durable metadata transition: SSTs added, SSTs removed, and the
/// sequence watermark up to which the table's log is persisted.
#[derive(Clone, Debug)]
pub struct ManifestEdit {
    pub added: Vec<FileId>,
    pub removed: Vec<FileId>,
    pub watermark: u64,
}

/// Whether file `f` is live after folding `edits` in append order: added and
/// not removed since.
pub open spec fn file_live(edits: Seq<ManifestEdit>, f: u64) -> bool
    decreases edits.len(),
{
    if edits.len() == 0 {
        false
    } else {
        let last = edits.last();
        (file_live(edits.drop_last(), f) && !last.removed@.contains(f)) || last.added@.contains(f)
    }
}

/// The greatest watermark recorded by `edits`, 0 when there is none.
pub open spec fn watermark_of(edits: Seq<ManifestEdit>) -> u64
    decreases edits.len(),
{
    if edits.len() == 0 {
        0u64
    } else {
        let rest = watermark_of(edits.drop_last());
        if edits.last().watermark > rest {
            edits.last().watermark
        } else {
            rest
        }
    }
}

/// A table's state as reconstructed from its manifest: the live file set and
/// the replay watermark.
#[derive(Debug)]
pub struct TableState {
    pub files: Vec<FileId>,
    pub watermark: u64,
}

impl TableState {
    /// No file is listed twice.
    pub open spec fn wf(self) -> bool {
        forall|i: int, j: int| 0 <= i < j < self.files@.len()
            ==> self.files@[i] != self.files@[j]
    }

    pub fn new() -> (s: TableState)
        ensures
            s.wf(),
            s.files@.len() == 0,
            s.watermark == 0,
    {
        TableState { files: Vec::new(), watermark: 0 }
    }

    /// Applies one edit: the files removed leave, the files added join, and
    /// the watermark never moves backwards.
    pub fn apply_edit(&mut self, edit: &ManifestEdit)
        requires
            old(self).wf(),
        ensures
            final(self).wf(),
            forall|f: u64| final(self).files@.contains(f)
                <==> ((old(self).files@.contains(f) && !edit.removed@.contains(f))
                    || edit.added@.contains(f)),
            final(self).watermark == (if edit.watermark > old(self).watermark {
                edit.watermark
            } else {
                old(self).watermark
            }),
    {
        let ghost f0 = self.files@;
        let mut kept: Vec<u64> = Vec::new();
        let mut i: usize = 0;
        while i < self.files.len()
            invariant
                0 <= i <= f0.len(),
                self.files@ == f0,
                forall|a: int, b: int| 0 <= a < b < f0.len() ==> f0[a] != f0[b],
                forall|a: int, b: int| 0 <= a < b < kept@.len() ==> kept@[a] != kept@[b],
                forall|f: u64| kept@.contains(f)
                    <==> (f0.subrange(0, i as int).contains(f) && !edit.removed@.contains(f)),
            decreases f0.len() - i,
        {
            let ghost kprev = kept@;
            let f = self.files[i];
            if !contains_id(&edit.removed, f) {
                proof {
                    if kprev.contains(f) {
                        let a = choose|a: int| 0 <= a < kprev.len() && kprev[a] == f;
                        let b = choose|b: int| 0 <= b < i && (#[trigger] f0.subrange(0, i as int)[b]) == f;
                        assert(f0[b] == f0[i as int]);
                        assert(false);
                    }
                }
                kept.push(f);
            }
            i = i + 1;
            proof {
                assert(f0.subrange(0, i as int)
                    =~= f0.subrange(0, i as int - 1).push(f0[i as int - 1]));
                assert forall|g: u64| kept@.contains(g)
                    implies (f0.subrange(0, i as int).contains(g)
                        && !edit.removed@.contains(g)) by {
                    let a = choose|a: int| 0 <= a < kept@.len() && kept@[a] == g;
                    if a < kprev.len() {
                        assert(kprev.contains(g));
                        let b = choose|b: int| 0 <= b < i - 1
                            && (#[trigger] f0.subrange(0, i as int - 1)[b]) == g;
                        assert(f0.subrange(0, i as int)[b] == g);
                    } else {
                        assert(g == f0[i as int - 1]);
                        assert(f0.subrange(0, i as int)[i - 1] == g);
                    }
                }
                assert forall|g: u64| f0.subrange(0, i as int).contains(g)
                    && !edit.removed@.contains(g) implies kept@.contains(g) by {
                    let b = choose|b: int| 0 <= b < i && (#[trigger] f0.subrange(0, i as int)[b]) == g;
                    if b < i - 1 {
                        assert(f0.subrange(0, i as int - 1)[b] == g);
                        assert(kprev.contains(g));
                        let a = choose|a: int| 0 <= a < kprev.len() && kprev[a] == g;
                        assert(kept@[a] == g);
                    } else {
                        assert(kept@[kept@.len() - 1] == g);
                    }
                }
            }
        }
        proof {
            assert(f0.subrange(0, f0.len() as int) =~= f0);
        }
        let mut j: usize = 0;
        while j < edit.added.len()
            invariant
                0 <= j <= edit.added@.len(),
                forall|a: int, b: int| 0 <= a < b < kept@.len() ==> kept@[a] != kept@[b],
                forall|f: u64| #[trigger] kept@.contains(f)
                    <==> ((f0.contains(f) && !edit.removed@.contains(f))
                        || edit.added@.subrange(0, j as int).contains(f)),
            decreases edit.added@.len() - j,
        {
            let ghost kprev = kept@;
            let f = edit.added[j];
            let was_present = contains_id(&kept, f);
            if !was_present {
                kept.push(f);
            }
            j = j + 1;
            proof {
                if was_present {
                    assert(kept@ == kprev);
                } else {
                    assert(kept@ == kprev.push(f));
                }
                assert(edit.added@.subrange(0, j as int)
                    =~= edit.added@.subrange(0, j as int - 1).push(edit.added@[j as int - 1]));
                assert forall|g: u64| kept@.contains(g)
                    implies ((f0.contains(g) && !edit.removed@.contains(g))
                        || edit.added@.subrange(0, j as int).contains(g)) by {
                    if !kprev.contains(g) {
                        assert(!was_present);
                        assert(kept@ == kprev.push(f));
                        assert(g == edit.added@[j as int - 1]);
                        assert(edit.added@.subrange(0, j as int)[j - 1] == g);
                        assert(edit.added@.subrange(0, j as int).contains(g));
                    } else {
                        if edit.added@.subrange(0, j as int - 1).contains(g) {
                            let b = choose|b: int| 0 <= b < j - 1
                                && (#[trigger] edit.added@.subrange(0, j as int - 1)[b]) == g;
                            assert(edit.added@.subrange(0, j as int)[b] == g);
                            assert(edit.added@.subrange(0, j as int).contains(g));
                        } else {
                            assert(f0.contains(g) && !edit.removed@.contains(g));
                        }
                    }
                }
                assert forall|g: u64| (f0.contains(g) && !edit.removed@.contains(g))
                    || edit.added@.subrange(0, j as int).contains(g)
                    implies kept@.contains(g) by {
                    if f0.contains(g) && !edit.removed@.contains(g) {
                        assert(kprev.contains(g));
                        let a = choose|a: int| 0 <= a < kprev.len() && kprev[a] == g;
                        assert(kept@[a] == g);
                    } else {
                        let b = choose|b: int| 0 <= b < j
                            && (#[trigger] edit.added@.subrange(0, j as int)[b]) == g;
                        if b < j - 1 {
                            assert(edit.added@.subrange(0, j as int - 1)[b] == g);
                            assert(kprev.contains(g));
                            let a = choose|a: int| 0 <= a < kprev.len() && kprev[a] == g;
                            assert(kept@[a] == g);
                        } else {
                            assert(g == edit.added@[j as int - 1]);
                            if kprev.contains(g) {
                                let a = choose|a: int| 0 <= a < kprev.len() && kprev[a] == g;
                                assert(kept@[a] == g);
                            } else {
                                assert(kept@[kept@.len() - 1] == g);
                            }
                        }
                    }
                }
            }
        }
        proof {
            assert(edit.added@.subrange(0, edit.added@.len() as int) =~= edit.added@);
        }
        self.files = kept;
        if edit.watermark > self.watermark {
            self.watermark = edit.watermark;
        }
    }
}

/// The append-only edit log of one table.
#[derive(Debug)]
pub struct Manifest {
    pub edits: Vec<ManifestEdit>,
}

impl Manifest {
    pub fn new() -> (m: Manifest)
        ensures
            m.edits@.len() == 0,
    {
        Manifest { edits: Vec::new() }
    }

    /// Durably records one transition. An SST named in `edit.added` may only
    /// become visible to new readers after this returns.
    pub fn append_edit(&mut self, edit: ManifestEdit)
        ensures
            final(self).edits@ == old(self).edits@.push(edit),
    {
        self.edits.push(edit);
    }

    /// Reconstructs the table's current state by folding the edits in append
    /// order; run once at recovery start, before any log replay.
    pub fn load(&self) -> (s: TableState)
        ensures
            s.wf(),
            forall|f: u64| s.files@.contains(f) <==> file_live(self.edits@, f),
            s.watermark == watermark_of(self.edits@),
    {
        let mut s = TableState::new();
        let mut i: usize = 0;
        while i < self.edits.len()
            invariant
                0 <= i <= self.edits@.len(),
                s.wf(),
                forall|f: u64| s.files@.contains(f)
                    <==> file_live(self.edits@.subrange(0, i as int), f),
                s.watermark == watermark_of(self.edits@.subrange(0, i as int)),
            decreases self.edits@.len() - i,
        {
            s.apply_edit(&self.edits[i]);
            i = i + 1;
            proof {
                let pre = self.edits@.subrange(0, i as int - 1);
                let now = self.edits@.subrange(0, i as int);
                assert(now.drop_last() =~= pre);
                assert(now.last() == self.edits@[i as int - 1]);
            }
        }
        proof {
            assert(self.edits@.subrange(0, self.edits@.len() as int) =~= self.edits@);
        }
        s
    }

    /// Collapses the log into one equivalent edit (a snapshot): the same
    /// files are live and the watermark is unchanged, so replay cost is
    /// bounded without ever replaying from genesis.
    pub fn checkpoint(&mut self)
        ensures
            final(self).edits@.len() == 1,
            forall|f: u64| file_live(final(self).edits@, f) <==> file_live(old(self).edits@, f),
            watermark_of(final(self).edits@) == watermark_of(old(self).edits@),
    {
        let state = self.load();
        let snapshot = ManifestEdit {
            added: state.files,
            removed: Vec::new(),
            watermark: state.watermark,
        };
        let mut fresh: Vec<ManifestEdit> = Vec::new();
        fresh.push(snapshot);
        self.edits = fresh;
        proof {
            let es = self.edits@;
            assert(es.drop_last() =~= Seq::<ManifestEdit>::empty());
            assert forall|f: u64| file_live(es, f) <==> file_live(old(self).edits@, f) by {
                assert(file_live(Seq::<ManifestEdit>::empty(), f) == false);
                assert(file_live(es, f) == es.last().added@.contains(f));
            }
            assert(watermark_of(Seq::<ManifestEdit>::empty()) == 0);
        }
    }
}

/// Whether the snapshot cadence is due: a checkpoint is taken once the
/// edit count reaches `snapshot_every_n_updates`, so replay cost stays
/// bounded. A cadence of zero disables automatic checkpointing.
pub fn checkpoint_due(n_edits: usize, snapshot_every_n_updates: usize) -> (b: bool)
    ensures
        b <==> (snapshot_every_n_updates > 0 && n_edits >= snapshot_every_n_updates),
{
    snapshot_every_n_updates > 0 && n_edits >= snapshot_every_n_updates
}

/// Whether `v` holds `f`.
fn contains_id(v: &Vec<u64>, f: u64) -> (b: bool)
    ensures
        b == v@.contains(f),
{
    let mut i: usize = 0;
    while i < v.len()
        invariant
            0 <= i <= v@.len(),
            forall|t: int| 0 <= t < i ==> v@[t] != f,
        decreases v@.len() - i,
    {
        if v[i] == f {
            proof {
                assert(v@[i as int] == f);
            }
            return true;
        }
        i = i + 1;
    }
    proof {
        if v@.contains(f) {
            let t = choose|t: int| 0 <= t < v@.len() && v@[t] == f;
            assert(false);
        }
    }
    false
}

} // verus!
