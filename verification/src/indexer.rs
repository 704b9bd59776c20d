//! Indexing pipeline decisions: chunk batching for embed-and-upsert
//! round-trips, the embed-pending latch, and incremental sync planning.

use vstd::prelude::*;
use crate::chunking::ChunkRecord;
use crate::text::{lemma_filter_push, str_eq};

verus! {

/// The number of chunks gathered before an embed-and-upsert round-trip.
pub const CHUNK_BATCH_SIZE: usize = 32;

/// What a completed index or sync run reports.
pub struct IndexResult {
    pub chunk_count: u64,
    pub embed_pending: bool,
    pub head_commit: Option<String>,
}

/// Accumulates chunk rows and releases them in batches, counting every row
/// released.
pub struct ChunkBatcher {
    pub batch: Vec<ChunkRecord>,
    pub total: u64,
}

/// The number of chunks a batcher has accepted: released rows plus rows
/// still pending.
pub open spec fn chunks_emitted(b: ChunkBatcher) -> int {
    b.total + b.batch@.len()
}

impl ChunkBatcher {
    /// A fresh batcher: nothing pending, nothing counted.
    pub fn new() -> (r: ChunkBatcher)
        ensures
            r.batch@.len() == 0,
            r.total == 0,
            chunks_emitted(r) == 0,
    {
        ChunkBatcher { batch: Vec::new(), total: 0 }
    }

    /// Accept one chunk row.
    pub fn push(&mut self, c: ChunkRecord)
        ensures
            final(self).batch@ == old(self).batch@.push(c),
            final(self).total == old(self).total,
            chunks_emitted(*final(self)) == chunks_emitted(*old(self)) + 1,
    {
        self.batch.push(c);
    }

    /// Accept a file's chunk rows in order.
    pub fn push_all(&mut self, cs: Vec<ChunkRecord>)
        ensures
            final(self).batch@ == old(self).batch@ + cs@,
            final(self).total == old(self).total,
            chunks_emitted(*final(self)) == chunks_emitted(*old(self)) + cs@.len(),
    {
        let mut cs = cs;
        self.batch.append(&mut cs);
    }

    /// Whether the pending batch has reached the release threshold.
    pub fn ready(&self) -> (r: bool)
        ensures
            r == (self.batch@.len() >= CHUNK_BATCH_SIZE),
    {
        self.batch.len() >= CHUNK_BATCH_SIZE
    }

    /// Release the pending batch, counting its rows into the total: the
    /// count accepted so far is unchanged, so after a final release the
    /// total equals every chunk ever accepted.
    pub fn flush(&mut self) -> (r: Vec<ChunkRecord>)
        requires
            chunks_emitted(*old(self)) <= u64::MAX,
        ensures
            r@ == old(self).batch@,
            final(self).batch@.len() == 0,
            final(self).total == old(self).total + old(self).batch@.len(),
            chunks_emitted(*final(self)) == chunks_emitted(*old(self)),
    {
        let n = self.batch.len();
        self.total = self.total + n as u64;
        let mut released: Vec<ChunkRecord> = Vec::new();
        core::mem::swap(&mut released, &mut self.batch);
        released
    }
}

/// Whether the repository's embed-pending flag is latched after one
/// embed-and-upsert round-trip: a failure latches it, and no later success
/// clears it within the same run.
pub fn latch_embed_pending(pending_so_far: bool, embed_succeeded: bool) -> (r: bool)
    ensures
        r == (pending_so_far || !embed_succeeded),
{
    pending_so_far || !embed_succeeded
}

/// What an incremental sync decides to do.
pub enum SyncPlan {
    /// HEAD equals the last indexed commit: report the recorded counters
    /// and touch nothing.
    NoOp,
    /// The last indexed commit is unknown to the object database: re-index
    /// everything.
    FullReindex,
    /// Diff the stored commit against HEAD and re-index the changed paths.
    Diff,
}

/// Plan an incremental sync: a no-op when HEAD is unchanged, a full
/// re-index when the stored commit cannot be found, else a tree diff.
pub fn plan_sync(head: &str, last_commit: &str, last_commit_found: bool) -> (r: SyncPlan)
    ensures
        head@ == last_commit@ ==> r is NoOp,
        head@ != last_commit@ && !last_commit_found ==> r is FullReindex,
        head@ != last_commit@ && last_commit_found ==> r is Diff,
{
    if str_eq(head, last_commit) {
        SyncPlan::NoOp
    } else if !last_commit_found {
        SyncPlan::FullReindex
    } else {
        SyncPlan::Diff
    }
}

/// The status of one path in a tree-to-tree diff.
pub enum DeltaKind {
    Deleted,
    Added,
    Modified,
    Other,
}

/// One path of a tree-to-tree diff.
pub struct DiffDelta {
    pub path: String,
    pub kind: DeltaKind,
}

/// Split a diff into the deleted paths and the added-or-modified paths,
/// keeping diff order; other statuses are ignored.
pub fn partition_diff(deltas: &Vec<DiffDelta>) -> (r: (Vec<String>, Vec<String>))
    ensures
        r.0@.map_values(|s: String| s@) == deltas@.filter(|d: DiffDelta| d.kind is Deleted)
            .map_values(|d: DiffDelta| d.path@),
        r.1@.map_values(|s: String| s@) == deltas@.filter(
            |d: DiffDelta| d.kind is Added || d.kind is Modified,
        ).map_values(|d: DiffDelta| d.path@),
{
    let mut deleted: Vec<String> = Vec::new();
    let mut changed: Vec<String> = Vec::new();
    let mut i: usize = 0;
    proof {
        assert(deltas@.take(0) =~= Seq::<DiffDelta>::empty());
        assert(deltas@.take(0).filter(|d: DiffDelta| d.kind is Deleted) =~= Seq::<
            DiffDelta,
        >::empty()) by {
            reveal(Seq::filter);
        };
        assert(deltas@.take(0).filter(|d: DiffDelta| d.kind is Added || d.kind is Modified)
            =~= Seq::<DiffDelta>::empty()) by {
            reveal(Seq::filter);
        };
    }
    while i < deltas.len()
        invariant
            0 <= i <= deltas@.len(),
            deleted@.map_values(|s: String| s@) == deltas@.take(i as int).filter(
                |d: DiffDelta| d.kind is Deleted,
            ).map_values(|d: DiffDelta| d.path@),
            changed@.map_values(|s: String| s@) == deltas@.take(i as int).filter(
                |d: DiffDelta| d.kind is Added || d.kind is Modified,
            ).map_values(|d: DiffDelta| d.path@),
        decreases deltas@.len() - i,
    {
        let d = &deltas[i];
        proof {
            assert(deltas@.take(i as int + 1) =~= deltas@.take(i as int).push(deltas@[i as int]));
            lemma_filter_push(
                deltas@.take(i as int),
                |d2: DiffDelta| d2.kind is Deleted,
                deltas@[i as int],
            );
            lemma_filter_push(
                deltas@.take(i as int),
                |d2: DiffDelta| d2.kind is Added || d2.kind is Modified,
                deltas@[i as int],
            );
        }
        match d.kind {
            DeltaKind::Deleted => {
                let ghost before = deleted@;
                deleted.push(d.path.clone());
                proof {
                    assert(deleted@ == before.push(deleted@.last()));
                    assert(deleted@.map_values(|s: String| s@) =~= before.map_values(
                        |s: String| s@,
                    ).push(deltas@[i as int].path@));
                    assert(deltas@.take(i as int).filter(|d2: DiffDelta| d2.kind is Deleted).push(
                        deltas@[i as int],
                    ).map_values(|d2: DiffDelta| d2.path@) =~= deltas@.take(i as int).filter(
                        |d2: DiffDelta| d2.kind is Deleted,
                    ).map_values(|d2: DiffDelta| d2.path@).push(deltas@[i as int].path@));
                }
            },
            DeltaKind::Added | DeltaKind::Modified => {
                let ghost before = changed@;
                changed.push(d.path.clone());
                proof {
                    assert(changed@ == before.push(changed@.last()));
                    assert(changed@.map_values(|s: String| s@) =~= before.map_values(
                        |s: String| s@,
                    ).push(deltas@[i as int].path@));
                    assert(deltas@.take(i as int).filter(
                        |d2: DiffDelta| d2.kind is Added || d2.kind is Modified,
                    ).push(deltas@[i as int]).map_values(|d2: DiffDelta| d2.path@) =~= deltas@.take(
                        i as int,
                    ).filter(|d2: DiffDelta| d2.kind is Added || d2.kind is Modified).map_values(
                        |d2: DiffDelta| d2.path@,
                    ).push(deltas@[i as int].path@));
                }
            },
            DeltaKind::Other => {},
        }
        i = i + 1;
    }
    proof {
        assert(deltas@.take(deltas@.len() as int) =~= deltas@);
    }
    (deleted, changed)
}

} // verus!
