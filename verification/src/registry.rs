//! The process-wide registry: persisted repository and workspace metadata
//! plus the in-flight task sets, with the per-repository serialisation
//! rules (one indexing task, one graph build at a time).

use vstd::prelude::*;
use crate::text::{lemma_filter_push, str_eq};
use crate::graph::GraphResult;
use crate::indexer::IndexResult;

verus! {

/// Repository metadata as persisted in the metadata document. Timestamps
/// are kept as formatted strings supplied by the caller.
pub struct RepoMeta {
    pub id: String,
    pub path: String,
    pub name: String,
    pub chunk_count: u64,
    pub embed_pending: bool,
    pub last_indexed_commit: Option<String>,
    pub last_indexed_at: Option<String>,
    pub last_sync_error: Option<String>,
    pub indexing: bool,
    pub graph_edge_count: u64,
    pub graph_indexed_at: Option<String>,
    pub last_graph_commit: Option<String>,
    pub graph_building: bool,
}

/// A named set of repositories used to widen search filters.
pub struct WorkspaceMeta {
    pub name: String,
    pub description: String,
    pub repo_ids: Vec<String>,
}

/// The persisted metadata document body: repositories and workspaces.
pub struct Metadata {
    pub repositories: Vec<RepoMeta>,
    pub workspaces: Vec<WorkspaceMeta>,
}

/// The runtime registry: the metadata document plus the in-flight task
/// sets, which are the authoritative liveness signal.
pub struct Registry {
    pub metadata: Metadata,
    pub indexing_cancels: Vec<String>,
    pub graph_cancels: Vec<String>,
}

/// Whether a repository identifier is in a task set.
pub open spec fn in_set(s: Seq<String>, id: Seq<char>) -> bool {
    exists|i: int| 0 <= i < s.len() && (#[trigger] s[i])@ == id
}

/// Whether the metadata holds a repository with this identifier.
pub open spec fn has_repo(m: Metadata, id: Seq<char>) -> bool {
    exists|i: int| 0 <= i < m.repositories@.len() && (#[trigger] m.repositories@[i]).id@ == id
}

/// Well-formedness: repository identifiers, workspace names and task-set
/// entries are distinct.
pub open spec fn registry_wf(r: Registry) -> bool {
    &&& forall|i: int, j: int|
        0 <= i < j < r.metadata.repositories@.len() ==> (
        #[trigger] r.metadata.repositories@[i]).id@ != (#[trigger] r.metadata.repositories@[j]).id@
    &&& forall|i: int, j: int|
        0 <= i < j < r.metadata.workspaces@.len() ==> (#[trigger] r.metadata.workspaces@[i]).name@
            != (#[trigger] r.metadata.workspaces@[j]).name@
    &&& forall|i: int, j: int|
        0 <= i < j < r.indexing_cancels@.len() ==> (#[trigger] r.indexing_cancels@[i])@ != (
        #[trigger] r.indexing_cancels@[j])@
    &&& forall|i: int, j: int|
        0 <= i < j < r.graph_cancels@.len() ==> (#[trigger] r.graph_cancels@[i])@ != (
        #[trigger] r.graph_cancels@[j])@
}

/// What an add request decided.
pub enum AddStatus {
    /// The repository is already being indexed; nothing changed.
    AlreadyIndexing,
    /// The repository was registered (or refreshed) and an indexing task
    /// may start.
    Indexing,
}

/// Find a repository's position by identifier.
fn find_repo(metadata: &Metadata, id: &str) -> (r: Option<usize>)
    ensures
        match r {
            Some(i) => i < metadata.repositories@.len() && metadata.repositories@[i as int].id@
                == id@,
            None => !has_repo(*metadata, id@),
        },
{
    let mut i: usize = 0;
    while i < metadata.repositories.len()
        invariant
            0 <= i <= metadata.repositories@.len(),
            forall|k: int| 0 <= k < i ==> (#[trigger] metadata.repositories@[k]).id@ != id@,
        decreases metadata.repositories@.len() - i,
    {
        if str_eq(metadata.repositories[i].id.as_str(), id) {
            return Some(i);
        }
        i = i + 1;
    }
    None
}

/// Whether `set` holds `id`; the executable side of [`in_set`].
fn set_contains(set: &Vec<String>, id: &str) -> (r: bool)
    ensures
        r == in_set(set@, id@),
{
    let mut i: usize = 0;
    while i < set.len()
        invariant
            0 <= i <= set@.len(),
            forall|k: int| 0 <= k < i ==> (#[trigger] set@[k])@ != id@,
        decreases set@.len() - i,
    {
        if str_eq(set[i].as_str(), id) {
            return true;
        }
        i = i + 1;
    }
    false
}

/// Remove `id` from `set` if present.
fn set_remove(set: &mut Vec<String>, id: &str)
    requires
        forall|i: int, j: int|
            0 <= i < j < old(set)@.len() ==> (#[trigger] old(set)@[i])@ != (
            #[trigger] old(set)@[j])@,
    ensures
        !in_set(final(set)@, id@),
        forall|x: Seq<char>| x != id@ ==> in_set(final(set)@, x) == in_set(old(set)@, x),
        forall|i: int, j: int|
            0 <= i < j < final(set)@.len() ==> (#[trigger] final(set)@[i])@ != (
            #[trigger] final(set)@[j])@,
{
    let mut out: Vec<String> = Vec::new();
    let mut i: usize = 0;
    while i < set.len()
        invariant
            0 <= i <= set@.len(),
            set@ == old(set)@,
            forall|i2: int, j2: int|
                0 <= i2 < j2 < set@.len() ==> (#[trigger] set@[i2])@ != (#[trigger] set@[j2])@,
            forall|k: int|
                0 <= k < out@.len() ==> (#[trigger] out@[k])@ != id@,
            forall|k: int|
                0 <= k < out@.len() ==> exists|m: int|
                    0 <= m < i && (#[trigger] set@[m])@ == (#[trigger] out@[k])@,
            forall|m: int|
                0 <= m < i && (#[trigger] set@[m])@ != id@ ==> in_set(out@, set@[m]@),
            forall|i2: int, j2: int|
                0 <= i2 < j2 < out@.len() ==> (#[trigger] out@[i2])@ != (#[trigger] out@[j2])@,
        decreases set@.len() - i,
    {
        if !str_eq(set[i].as_str(), id) {
            let ghost out_before = out@;
            let v = set[i].clone();
            out.push(v);
            proof {
                assert(out@.drop_last() =~= out_before);
                assert(out@.last()@ == set@[i as int]@);
                assert forall|i2: int, j2: int|
                    0 <= i2 < j2 < out@.len() implies (#[trigger] out@[i2])@ != (
                #[trigger] out@[j2])@ by {
                    if j2 == out@.len() - 1 {
                        let m = choose|m: int|
                            0 <= m < i && (#[trigger] set@[m])@ == (out_before[i2])@;
                        assert(set@[m]@ != set@[i as int]@);
                    }
                }
            }
        }
        i = i + 1;
    }
    *set = out;
    proof {
        if in_set(set@, id@) {
            let k = choose|k: int| 0 <= k < set@.len() && (#[trigger] set@[k])@ == id@;
            assert(false);
        }
        assert forall|x: Seq<char>| x != id@ implies in_set(set@, x) == in_set(
            old(set)@,
            x,
        ) by {
            if in_set(set@, x) {
                let k = choose|k: int| 0 <= k < set@.len() && (#[trigger] set@[k])@ == x;
                let m = choose|m: int|
                    0 <= m < old(set)@.len() && (#[trigger] old(set)@[m])@ == set@[k]@;
                assert(in_set(old(set)@, x));
            }
            if in_set(old(set)@, x) {
                let m = choose|m: int| 0 <= m < old(set)@.len() && (#[trigger] old(set)@[m])@ == x;
                assert(in_set(set@, old(set)@[m]@));
            }
        }
    }
}

impl Registry {
    /// An empty registry.
    pub fn new() -> (r: Registry)
        ensures
            registry_wf(r),
            r.metadata.repositories@.len() == 0,
            r.metadata.workspaces@.len() == 0,
            r.indexing_cancels@.len() == 0,
            r.graph_cancels@.len() == 0,
    {
        Registry {
            metadata: Metadata { repositories: Vec::new(), workspaces: Vec::new() },
            indexing_cancels: Vec::new(),
            graph_cancels: Vec::new(),
        }
    }

    /// Whether a repository is currently being indexed: presence in the
    /// in-flight task set is the authoritative signal.
    pub fn is_indexing(&self, repo_id: &str) -> (r: bool)
        ensures
            r == in_set(self.indexing_cancels@, repo_id@),
    {
        set_contains(&self.indexing_cancels, repo_id)
    }

    /// Whether a repository's graph is currently being built.
    pub fn is_graph_building(&self, repo_id: &str) -> (r: bool)
        ensures
            r == in_set(self.graph_cancels@, repo_id@),
    {
        set_contains(&self.graph_cancels, repo_id)
    }

    /// Register a repository for indexing. Re-adding while an indexing
    /// task is in flight changes nothing; otherwise the entry is created
    /// if absent (so a second add never duplicates it), marked as
    /// indexing with its error cleared, and claimed in the task set.
    pub fn add_repository(&mut self, repo_id: &str, name: &str, path: &str) -> (r: AddStatus)
        requires
            registry_wf(*old(self)),
        ensures
            registry_wf(*final(self)),
            in_set(old(self).indexing_cancels@, repo_id@) <==> r is AlreadyIndexing,
            r is AlreadyIndexing ==> *final(self) == *old(self),
            r is Indexing ==> {
                &&& has_repo(final(self).metadata, repo_id@)
                &&& final(self).metadata.repositories@.len() == old(self).metadata.repositories@.len() + (if has_repo(old(self).metadata, repo_id@) {
                    0int
                } else {
                    1int
                })
                &&& in_set(final(self).indexing_cancels@, repo_id@)
                &&& forall|i: int|
                    0 <= i < old(self).metadata.repositories@.len() && (#[trigger] old(self).metadata.repositories@[i]).id@ != repo_id@ ==> final(self).metadata.repositories@[i] == old(self).metadata.repositories@[i]
                &&& forall|i: int|
                    0 <= i < old(self).metadata.repositories@.len() && (#[trigger] old(self).metadata.repositories@[i]).id@ == repo_id@ ==> {
                        let before = old(self).metadata.repositories@[i];
                        let after = final(self).metadata.repositories@[i];
                        &&& after.id == before.id
                        &&& after.path == before.path
                        &&& after.name == before.name
                        &&& after.chunk_count == before.chunk_count
                        &&& after.embed_pending == before.embed_pending
                        &&& after.last_indexed_commit == before.last_indexed_commit
                        &&& after.last_indexed_at == before.last_indexed_at
                        &&& after.last_sync_error is None
                        &&& after.indexing == true
                        &&& after.graph_edge_count == before.graph_edge_count
                        &&& after.graph_indexed_at == before.graph_indexed_at
                        &&& after.last_graph_commit == before.last_graph_commit
                        &&& after.graph_building == before.graph_building
                    }
                &&& !has_repo(old(self).metadata, repo_id@) ==> {
                    let m = final(self).metadata.repositories@.last();
                    &&& final(self).metadata.repositories@.drop_last() == old(self).metadata.repositories@
                    &&& m.id@ == repo_id@
                    &&& m.path@ == path@
                    &&& m.name@ == name@
                    &&& m.chunk_count == 0
                    &&& m.embed_pending == false
                    &&& m.last_indexed_commit is None
                    &&& m.last_indexed_at is None
                    &&& m.last_sync_error is None
                    &&& m.indexing == true
                    &&& m.graph_edge_count == 0
                    &&& m.graph_indexed_at is None
                    &&& m.last_graph_commit is None
                    &&& m.graph_building == false
                }
                &&& final(self).metadata.workspaces@ == old(self).metadata.workspaces@
                &&& final(self).graph_cancels@ == old(self).graph_cancels@
            },
    {
        if set_contains(&self.indexing_cancels, repo_id) {
            return AddStatus::AlreadyIndexing;
        }
        match find_repo(&self.metadata, repo_id) {
            Some(i) => {
                self.metadata.repositories[i].indexing = true;
                self.metadata.repositories[i].last_sync_error = None;
                proof {
                    assert(self.metadata.repositories@[i as int].id@ == repo_id@);
                    assert(self.metadata.repositories@[i as int].indexing == true);
                    assert(self.metadata.repositories@[i as int].last_sync_error is None);
                    assert forall|i2: int|
                        0 <= i2 < old(self).metadata.repositories@.len() && (#[trigger] old(self).metadata.repositories@[i2]).id@ == repo_id@ implies i2 == i as int by {
                        if i2 != i as int {
                            assert(old(self).metadata.repositories@[i2].id@ != old(self).metadata.repositories@[i as int].id@);
                        }
                    }
                }
            },
            None => {
                let meta = RepoMeta {
                    id: repo_id.to_owned(),
                    path: path.to_owned(),
                    name: name.to_owned(),
                    chunk_count: 0,
                    embed_pending: false,
                    last_indexed_commit: None,
                    last_indexed_at: None,
                    last_sync_error: None,
                    indexing: true,
                    graph_edge_count: 0,
                    graph_indexed_at: None,
                    last_graph_commit: None,
                    graph_building: false,
                };
                self.metadata.repositories.push(meta);
                proof {
                    assert(self.metadata.repositories@.drop_last() =~= old(self).metadata.repositories@);
                    assert(self.metadata.repositories@.last().id@ == repo_id@);
                }
            },
        }
        self.indexing_cancels.push(repo_id.to_owned());
        proof {
            assert(self.indexing_cancels@.drop_last() =~= old(self).indexing_cancels@);
            assert(self.indexing_cancels@.last()@ == repo_id@);
            assert forall|i: int, j: int|
                0 <= i < j < self.indexing_cancels@.len() implies (
            #[trigger] self.indexing_cancels@[i])@ != (#[trigger] self.indexing_cancels@[j])@ by {
                if j == self.indexing_cancels@.len() - 1 {
                    if self.indexing_cancels@[i]@ == repo_id@ {
                        assert(in_set(old(self).indexing_cancels@, repo_id@));
                        assert(false);
                    }
                }
            }
            assert(in_set(self.indexing_cancels@, repo_id@));
        }
        AddStatus::Indexing
    }

    /// Record a finished indexing run: release the task claim and, on
    /// success, install the reported counters and commit and clear the
    /// error; on failure, keep the counters and latch the error message.
    pub fn finish_index(
        &mut self,
        repo_id: &str,
        outcome: Result<IndexResult, String>,
        now: &str,
    )
        requires
            registry_wf(*old(self)),
        ensures
            registry_wf(*final(self)),
            !in_set(final(self).indexing_cancels@, repo_id@),
            final(self).metadata.repositories@.len() == old(self).metadata.repositories@.len(),
            forall|i: int|
                0 <= i < old(self).metadata.repositories@.len() && (#[trigger] old(self).metadata.repositories@[i]).id@ != repo_id@ ==> final(self).metadata.repositories@[i] == old(self).metadata.repositories@[i],
            forall|i: int|
                0 <= i < old(self).metadata.repositories@.len() && (#[trigger] old(self).metadata.repositories@[i]).id@ == repo_id@ ==> {
                    let before = old(self).metadata.repositories@[i];
                    let after = final(self).metadata.repositories@[i];
                    &&& after.id@ == repo_id@
                    &&& after.indexing == false
                    &&& after.id == before.id
                    &&& after.path == before.path
                    &&& after.name == before.name
                    &&& after.graph_edge_count == before.graph_edge_count
                    &&& after.graph_indexed_at == before.graph_indexed_at
                    &&& after.last_graph_commit == before.last_graph_commit
                    &&& after.graph_building == before.graph_building
                    &&& match outcome {
                        Ok(res) => after.chunk_count == res.chunk_count && after.embed_pending
                            == res.embed_pending && after.last_indexed_commit == res.head_commit
                            && (match after.last_indexed_at {
                            Some(t) => t@ == now@,
                            None => false,
                        }) && after.last_sync_error is None,
                        Err(msg) => after.chunk_count == before.chunk_count
                            && after.embed_pending == before.embed_pending
                            && after.last_indexed_commit == before.last_indexed_commit
                            && after.last_indexed_at == before.last_indexed_at && (
                        match after.last_sync_error {
                            Some(e) => e@ == msg@,
                            None => false,
                        }),
                    }
                },
    {
        set_remove(&mut self.indexing_cancels, repo_id);
        match find_repo(&self.metadata, repo_id) {
            Some(i) => {
                match outcome {
                    Ok(res) => {
                        self.metadata.repositories[i].indexing = false;
                        self.metadata.repositories[i].chunk_count = res.chunk_count;
                        self.metadata.repositories[i].embed_pending = res.embed_pending;
                        self.metadata.repositories[i].last_indexed_commit = res.head_commit;
                        self.metadata.repositories[i].last_indexed_at = Some(now.to_owned());
                        self.metadata.repositories[i].last_sync_error = None;
                    },
                    Err(msg) => {
                        self.metadata.repositories[i].indexing = false;
                        self.metadata.repositories[i].last_sync_error = Some(msg);
                    },
                }
                proof {
                    assert forall|i2: int|
                        0 <= i2 < old(self).metadata.repositories@.len() && (#[trigger] old(self).metadata.repositories@[i2]).id@ == repo_id@ implies i2 == i as int by {
                        if i2 != i as int {
                            assert(old(self).metadata.repositories@[i2].id@ != old(self).metadata.repositories@[i as int].id@);
                        }
                    }
                }
            },
            None => {},
        }
    }

    /// Claim a graph build for a repository; refused while one is already
    /// in flight.
    pub fn begin_graph_build(&mut self, repo_id: &str) -> (r: bool)
        requires
            registry_wf(*old(self)),
        ensures
            registry_wf(*final(self)),
            r == !in_set(old(self).graph_cancels@, repo_id@),
            !r ==> *final(self) == *old(self),
            r ==> in_set(final(self).graph_cancels@, repo_id@),
            r ==> forall|i: int|
                0 <= i < old(self).metadata.repositories@.len() && (#[trigger] old(self).metadata.repositories@[i]).id@ == repo_id@ ==> final(self).metadata.repositories@[i].graph_building == true,
    {
        if set_contains(&self.graph_cancels, repo_id) {
            return false;
        }
        match find_repo(&self.metadata, repo_id) {
            Some(i) => {
                self.metadata.repositories[i].graph_building = true;
                proof {
                    assert forall|i2: int|
                        0 <= i2 < old(self).metadata.repositories@.len() && (#[trigger] old(self).metadata.repositories@[i2]).id@ == repo_id@ implies i2 == i as int by {
                        if i2 != i as int {
                            assert(old(self).metadata.repositories@[i2].id@ != old(self).metadata.repositories@[i as int].id@);
                        }
                    }
                }
            },
            None => {},
        }
        self.graph_cancels.push(repo_id.to_owned());
        proof {
            assert(self.graph_cancels@.drop_last() =~= old(self).graph_cancels@);
            assert(self.graph_cancels@.last()@ == repo_id@);
            assert forall|i: int, j: int|
                0 <= i < j < self.graph_cancels@.len() implies (
            #[trigger] self.graph_cancels@[i])@ != (#[trigger] self.graph_cancels@[j])@ by {
                if j == self.graph_cancels@.len() - 1 {
                    if self.graph_cancels@[i]@ == repo_id@ {
                        assert(in_set(old(self).graph_cancels@, repo_id@));
                        assert(false);
                    }
                }
            }
            assert(in_set(self.graph_cancels@, repo_id@));
        }
        true
    }

    /// Record a finished graph build: release the task claim and, on
    /// success, install the edge count and commit.
    pub fn finish_graph_build(
        &mut self,
        repo_id: &str,
        outcome: Result<GraphResult, String>,
        now: &str,
    )
        requires
            registry_wf(*old(self)),
        ensures
            registry_wf(*final(self)),
            !in_set(final(self).graph_cancels@, repo_id@),
            final(self).metadata.repositories@.len() == old(self).metadata.repositories@.len(),
            forall|i: int|
                0 <= i < old(self).metadata.repositories@.len() && (#[trigger] old(self).metadata.repositories@[i]).id@ == repo_id@ ==> {
                    let before = old(self).metadata.repositories@[i];
                    let after = final(self).metadata.repositories@[i];
                    &&& after.graph_building == false
                    &&& after.id == before.id
                    &&& after.path == before.path
                    &&& after.name == before.name
                    &&& after.chunk_count == before.chunk_count
                    &&& after.embed_pending == before.embed_pending
                    &&& after.last_indexed_commit == before.last_indexed_commit
                    &&& after.last_indexed_at == before.last_indexed_at
                    &&& after.last_sync_error == before.last_sync_error
                    &&& match outcome {
                        Ok(res) => after.graph_edge_count == res.edge_count
                            && after.last_graph_commit == res.head_commit && (
                        match after.graph_indexed_at {
                            Some(t) => t@ == now@,
                            None => false,
                        }),
                        Err(_) => after.graph_edge_count == before.graph_edge_count
                            && after.last_graph_commit == before.last_graph_commit
                            && after.graph_indexed_at == before.graph_indexed_at,
                    }
                },
    {
        set_remove(&mut self.graph_cancels, repo_id);
        match find_repo(&self.metadata, repo_id) {
            Some(i) => {
                proof {
                    assert forall|i2: int|
                        0 <= i2 < old(self).metadata.repositories@.len() && (#[trigger] old(self).metadata.repositories@[i2]).id@ == repo_id@ implies i2 == i as int by {
                        if i2 != i as int {
                            assert(old(self).metadata.repositories@[i2].id@ != old(self).metadata.repositories@[i as int].id@);
                        }
                    }
                }
                match outcome {
                    Ok(res) => {
                        self.metadata.repositories[i].graph_building = false;
                        self.metadata.repositories[i].graph_edge_count = res.edge_count;
                        self.metadata.repositories[i].last_graph_commit = res.head_commit;
                        self.metadata.repositories[i].graph_indexed_at = Some(now.to_owned());
                    },
                    Err(_) => {
                        self.metadata.repositories[i].graph_building = false;
                    },
                }
            },
            None => {},
        }
    }
}

} // verus!

verus! {

/// Remove every occurrence of `id` from a repository list, keeping order.
fn retain_not_equal(v: &mut Vec<String>, id: &str)
    ensures
        final(v)@.map_values(|s: String| s@) == old(v)@.map_values(|s: String| s@).filter(
            |x: Seq<char>| x != id@,
        ),
{
    let ghost p = |x: Seq<char>| x != id@;
    let mut out: Vec<String> = Vec::new();
    let mut i: usize = 0;
    proof {
        assert(old(v)@.map_values(|s: String| s@).take(0) =~= Seq::<Seq<char>>::empty());
        assert(Seq::<Seq<char>>::empty().filter(p) =~= Seq::<Seq<char>>::empty()) by {
            reveal(Seq::filter);
        };
        assert(out@.map_values(|s: String| s@) =~= Seq::<Seq<char>>::empty());
    }
    while i < v.len()
        invariant
            0 <= i <= v@.len(),
            v@ == old(v)@,
            p == (|x: Seq<char>| x != id@),
            out@.map_values(|s: String| s@) == v@.map_values(|s: String| s@).take(i as int).filter(
                p,
            ),
        decreases v@.len() - i,
    {
        let ghost vv = v@.map_values(|s: String| s@);
        proof {
            assert(vv.take(i as int + 1) =~= vv.take(i as int).push(vv[i as int]));
            lemma_filter_push(vv.take(i as int), p, vv[i as int]);
        }
        if !str_eq(v[i].as_str(), id) {
            let ghost out_before = out@;
            let x = v[i].clone();
            out.push(x);
            proof {
                assert(out@ == out_before.push(out@.last()));
                assert(out@.last()@ == vv[i as int]);
                assert(out@.map_values(|s: String| s@) =~= out_before.map_values(
                    |s: String| s@,
                ).push(vv[i as int]));
            }
        }
        i = i + 1;
    }
    proof {
        assert(v@.map_values(|s: String| s@).take(v@.len() as int) =~= v@.map_values(
            |s: String| s@,
        ));
    }
    *v = out;
}

impl Registry {
    /// Remove a repository: cancel its in-flight tasks, drop its metadata
    /// entry, and drop its identifier from every workspace. After this no
    /// trace of the repository remains in the registry.
    pub fn remove_repository(&mut self, repo_id: &str) -> (r: bool)
        requires
            registry_wf(*old(self)),
        ensures
            registry_wf(*final(self)),
            r == has_repo(old(self).metadata, repo_id@),
            !has_repo(final(self).metadata, repo_id@),
            !in_set(final(self).indexing_cancels@, repo_id@),
            !in_set(final(self).graph_cancels@, repo_id@),
            r ==> exists|i: int|
                0 <= i < old(self).metadata.repositories@.len() && (#[trigger] old(self).metadata.repositories@[i]).id@ == repo_id@ && final(self).metadata.repositories@
                    == old(self).metadata.repositories@.remove(i),
            !r ==> final(self).metadata.repositories@ == old(self).metadata.repositories@,
            final(self).metadata.workspaces@.len() == old(self).metadata.workspaces@.len(),
            forall|j: int|
                0 <= j < old(self).metadata.workspaces@.len() ==> {
                    let before = old(self).metadata.workspaces@[j];
                    let after = #[trigger] final(self).metadata.workspaces@[j];
                    after.name@ == before.name@ && after.description@ == before.description@
                        && after.repo_ids@.map_values(|s: String| s@)
                        == before.repo_ids@.map_values(|s: String| s@).filter(
                        |x: Seq<char>| x != repo_id@,
                    )
                },
    {
        set_remove(&mut self.indexing_cancels, repo_id);
        set_remove(&mut self.graph_cancels, repo_id);
        let removed: bool;
        match find_repo(&self.metadata, repo_id) {
            Some(i) => {
                proof {
                    assert forall|i2: int|
                        0 <= i2 < old(self).metadata.repositories@.len() && (#[trigger] old(self).metadata.repositories@[i2]).id@ == repo_id@ implies i2 == i as int by {
                        if i2 != i as int {
                            assert(old(self).metadata.repositories@[i2].id@ != old(self).metadata.repositories@[i as int].id@);
                        }
                    }
                }
                self.metadata.repositories.remove(i);
                removed = true;
                proof {
                    if has_repo(self.metadata, repo_id@) {
                        let k = choose|k: int|
                            0 <= k < self.metadata.repositories@.len() && (
                            #[trigger] self.metadata.repositories@[k]).id@ == repo_id@;
                        if k < i as int {
                            assert(self.metadata.repositories@[k] == old(self).metadata.repositories@[k]);
                        } else {
                            assert(self.metadata.repositories@[k] == old(self).metadata.repositories@[k + 1]);
                        }
                        assert(false);
                    }
                }
            },
            None => {
                removed = false;
            },
        }
        let mut w: usize = 0;
        let ghost ws_mid = self.metadata.workspaces@;
        let ghost repos_mid = self.metadata.repositories@;
        let ghost idx_cancels_mid = self.indexing_cancels@;
        let ghost graph_cancels_mid = self.graph_cancels@;
        while w < self.metadata.workspaces.len()
            invariant
                0 <= w <= self.metadata.workspaces@.len(),
                self.metadata.workspaces@.len() == ws_mid.len(),
                self.metadata.repositories@ == repos_mid,
                self.indexing_cancels@ == idx_cancels_mid,
                self.graph_cancels@ == graph_cancels_mid,
                forall|j: int|
                    w <= j < ws_mid.len() ==> #[trigger] self.metadata.workspaces@[j]
                        == ws_mid[j],
                forall|j: int|
                    0 <= j < w ==> {
                        let before = ws_mid[j];
                        let after = #[trigger] self.metadata.workspaces@[j];
                        after.name@ == before.name@ && after.description@ == before.description@
                            && after.repo_ids@.map_values(|s: String| s@)
                            == before.repo_ids@.map_values(|s: String| s@).filter(
                            |x: Seq<char>| x != repo_id@,
                        )
                    },
            decreases ws_mid.len() - w,
        {
            retain_not_equal(&mut self.metadata.workspaces[w].repo_ids, repo_id);
            w = w + 1;
        }
        removed
    }

    /// The repositories an incremental sync run covers: those matching
    /// the requested identifier (all, when none is given) that are not
    /// already being indexed; each yields its identifier, path and last
    /// indexed commit.
    pub fn repos_to_sync(&self, specific: Option<&str>) -> (r: Vec<
        (String, String, Option<String>),
    >)
        ensures
            r@.map_values(
                |t: (String, String, Option<String>)| (t.0@, t.1@, match t.2 {
                    Some(c) => Some(c@),
                    None => None::<Seq<char>>,
                }),
            ) == self.metadata.repositories@.filter(
                sync_pred(self.indexing_cancels@, match specific {
                    Some(id) => Some(id@),
                    None => None,
                }),
            ).map_values(
                |m: RepoMeta| (m.id@, m.path@, match m.last_indexed_commit {
                    Some(c) => Some(c@),
                    None => None::<Seq<char>>,
                }),
            ),
    {
        let ghost want: Option<Seq<char>> = match specific {
            Some(id) => Some(id@),
            None => None,
        };
        let ghost p = sync_pred(self.indexing_cancels@, want);
        let mut out: Vec<(String, String, Option<String>)> = Vec::new();
        let mut i: usize = 0;
        proof {
            assert(self.metadata.repositories@.take(0) =~= Seq::<RepoMeta>::empty());
            assert(Seq::<RepoMeta>::empty().filter(p) =~= Seq::<RepoMeta>::empty()) by {
                reveal(Seq::filter);
            };
            assert(out@.map_values(
                |t: (String, String, Option<String>)| (t.0@, t.1@, match t.2 {
                    Some(c) => Some(c@),
                    None => None::<Seq<char>>,
                }),
            ) =~= Seq::<(Seq<char>, Seq<char>, Option<Seq<char>>)>::empty());
        }
        while i < self.metadata.repositories.len()
            invariant
                0 <= i <= self.metadata.repositories@.len(),
                want == (match specific {
                    Some(id) => Some(id@),
                    None => None::<Seq<char>>,
                }),
                p == sync_pred(self.indexing_cancels@, want),
                out@.map_values(
                    |t: (String, String, Option<String>)| (t.0@, t.1@, match t.2 {
                        Some(c) => Some(c@),
                        None => None::<Seq<char>>,
                    }),
                ) == self.metadata.repositories@.take(i as int).filter(p).map_values(
                    |m: RepoMeta| (m.id@, m.path@, match m.last_indexed_commit {
                        Some(c) => Some(c@),
                        None => None::<Seq<char>>,
                    }),
                ),
            decreases self.metadata.repositories@.len() - i,
        {
            proof {
                assert(self.metadata.repositories@.take(i as int + 1)
                    =~= self.metadata.repositories@.take(i as int).push(
                    self.metadata.repositories@[i as int],
                ));
                lemma_filter_push(
                    self.metadata.repositories@.take(i as int),
                    p,
                    self.metadata.repositories@[i as int],
                );
            }
            let m = &self.metadata.repositories[i];
            let wanted = match specific {
                Some(id) => str_eq(m.id.as_str(), id),
                None => true,
            };
            let eligible = wanted && !m.indexing && !set_contains(
                &self.indexing_cancels,
                m.id.as_str(),
            );
            proof {
                assert(eligible == p(self.metadata.repositories@[i as int]));
            }
            if eligible {
                let ghost out_before = out@;
                let commit: Option<String> = match &m.last_indexed_commit {
                    Some(c) => Some(c.clone()),
                    None => None,
                };
                out.push((m.id.clone(), m.path.clone(), commit));
                proof {
                    assert(out@ == out_before.push(out@.last()));
                    assert(out@.map_values(
                        |t: (String, String, Option<String>)| (t.0@, t.1@, match t.2 {
                            Some(c) => Some(c@),
                            None => None::<Seq<char>>,
                        }),
                    ) =~= out_before.map_values(
                        |t: (String, String, Option<String>)| (t.0@, t.1@, match t.2 {
                            Some(c) => Some(c@),
                            None => None::<Seq<char>>,
                        }),
                    ).push(
                        (
                            self.metadata.repositories@[i as int].id@,
                            self.metadata.repositories@[i as int].path@,
                            match self.metadata.repositories@[i as int].last_indexed_commit {
                                Some(c) => Some(c@),
                                None => None::<Seq<char>>,
                            },
                        ),
                    ));
                }
            }
            i = i + 1;
        }
        proof {
            assert(self.metadata.repositories@.take(self.metadata.repositories@.len() as int)
                =~= self.metadata.repositories@);
        }
        out
    }
}

/// Whether a repository takes part in a sync run: it matches the request
/// (if one names a repository) and no indexing task is in flight for it.
pub open spec fn sync_eligible(m: RepoMeta, cancels: Seq<String>, want: Option<Seq<char>>) -> bool {
    (match want {
        Some(id) => m.id@ == id,
        None => true,
    }) && !m.indexing && !in_set(cancels, m.id@)
}

/// The sync-eligibility predicate over one task-set and request.
pub open spec fn sync_pred(cancels: Seq<String>, want: Option<Seq<char>>) -> spec_fn(RepoMeta)
    -> bool {
    |m: RepoMeta| sync_eligible(m, cancels, want)
}

} // verus!

verus! {

/// Whether the metadata holds a workspace with this name.
pub open spec fn has_workspace(m: Metadata, name: Seq<char>) -> bool {
    exists|i: int| 0 <= i < m.workspaces@.len() && (#[trigger] m.workspaces@[i]).name@ == name
}

/// Whether a repository row is counted as indexed: no indexing flagged and
/// a last indexed commit recorded.
pub open spec fn counts_indexed(m: RepoMeta) -> bool {
    !m.indexing && m.last_indexed_commit is Some
}

/// Whether a repository row is counted as indexing: its flag is set or an
/// indexing task is in flight.
pub open spec fn counts_indexing(cancels: Seq<String>) -> spec_fn(RepoMeta) -> bool {
    |m: RepoMeta| m.indexing || in_set(cancels, m.id@)
}

/// Whether a repository row is counted as building its graph.
pub open spec fn counts_graph_building(cancels: Seq<String>) -> spec_fn(RepoMeta) -> bool {
    |m: RepoMeta| m.graph_building || in_set(cancels, m.id@)
}

/// The indexed-repository predicate.
pub open spec fn indexed_pred() -> spec_fn(RepoMeta) -> bool {
    |m: RepoMeta| counts_indexed(m)
}

/// The pending-embedding predicate.
pub open spec fn pending_pred() -> spec_fn(RepoMeta) -> bool {
    |m: RepoMeta| m.embed_pending
}

/// The aggregate counts the status operation reports.
pub struct StatusCounts {
    pub indexed: usize,
    pub indexing: usize,
    pub pending_embed: usize,
    pub graph_building: usize,
}

impl Registry {
    /// Create or replace a workspace. Fails on the first repository
    /// identifier that is not registered; on success the workspace is
    /// stored under its name, replacing any previous definition.
    pub fn create_workspace(&mut self, name: &str, description: &str, repo_ids: Vec<String>)
        -> (r: Result<(), String>)
        requires
            registry_wf(*old(self)),
        ensures
            registry_wf(*final(self)),
            final(self).metadata.repositories@ == old(self).metadata.repositories@,
            final(self).indexing_cancels@ == old(self).indexing_cancels@,
            final(self).graph_cancels@ == old(self).graph_cancels@,
            r is Ok <==> (forall|k: int|
                0 <= k < repo_ids@.len() ==> has_repo(old(self).metadata, (
                #[trigger] repo_ids@[k])@)),
            r is Err ==> *final(self) == *old(self),
            r is Ok ==> has_workspace(final(self).metadata, name@) && exists|i: int|
                0 <= i < final(self).metadata.workspaces@.len() && {
                    let w = #[trigger] final(self).metadata.workspaces@[i];
                    w.name@ == name@ && w.description@ == description@ && w.repo_ids@.map_values(
                        |s: String| s@,
                    ) == repo_ids@.map_values(|s: String| s@)
                },
            r is Ok ==> final(self).metadata.workspaces@.len() == old(self).metadata.workspaces@.len() + (if has_workspace(old(self).metadata, name@) {
                0int
            } else {
                1int
            }),
            r is Ok ==> forall|j: int|
                0 <= j < old(self).metadata.workspaces@.len() && (#[trigger] old(self).metadata.workspaces@[j]).name@ != name@ ==> final(self).metadata.workspaces@[j]
                    == old(self).metadata.workspaces@[j],
    {
        let mut k: usize = 0;
        while k < repo_ids.len()
            invariant
                0 <= k <= repo_ids@.len(),
                registry_wf(*self),
                *self == *old(self),
                forall|k2: int|
                    0 <= k2 < k ==> has_repo(self.metadata, (#[trigger] repo_ids@[k2])@),
            decreases repo_ids@.len() - k,
        {
            match find_repo(&self.metadata, repo_ids[k].as_str()) {
                Some(_) => {},
                None => {
                    let mut msg = "Unknown repository: ".to_owned();
                    msg.append(repo_ids[k].as_str());
                    return Err(msg);
                },
            }
            k = k + 1;
        }
        let ws = WorkspaceMeta {
            name: name.to_owned(),
            description: description.to_owned(),
            repo_ids,
        };
        let mut i: usize = 0;
        let n = self.metadata.workspaces.len();
        let mut slot: usize = n;
        while i < n
            invariant
                0 <= i <= n == self.metadata.workspaces@.len(),
                *self == *old(self),
                registry_wf(*self),
                slot <= n,
                slot == n ==> forall|k2: int|
                    0 <= k2 < i ==> (#[trigger] self.metadata.workspaces@[k2]).name@ != name@,
                slot < n ==> (slot as int) < self.metadata.workspaces@.len()
                    && self.metadata.workspaces@[slot as int].name@ == name@,
            decreases n - i,
        {
            if slot == n && str_eq(self.metadata.workspaces[i].name.as_str(), name) {
                slot = i;
            }
            i = i + 1;
        }
        if slot < n {
            self.metadata.workspaces[slot] = ws;
            proof {
                assert(self.metadata.workspaces@[slot as int].name@ == name@);
                assert forall|i2: int, j2: int|
                    0 <= i2 < j2 < self.metadata.workspaces@.len() implies (
                #[trigger] self.metadata.workspaces@[i2]).name@ != (
                #[trigger] self.metadata.workspaces@[j2]).name@ by {
                    if i2 != slot as int && j2 != slot as int {
                        assert(self.metadata.workspaces@[i2] == old(self).metadata.workspaces@[i2]);
                        assert(self.metadata.workspaces@[j2] == old(self).metadata.workspaces@[j2]);
                    } else if i2 == slot as int {
                        assert(self.metadata.workspaces@[j2] == old(self).metadata.workspaces@[j2]);
                        assert(old(self).metadata.workspaces@[slot as int].name@ == name@);
                        assert(old(self).metadata.workspaces@[j2].name@ != old(self).metadata.workspaces@[slot as int].name@);
                    } else {
                        assert(self.metadata.workspaces@[i2] == old(self).metadata.workspaces@[i2]);
                        assert(old(self).metadata.workspaces@[slot as int].name@ == name@);
                        assert(old(self).metadata.workspaces@[i2].name@ != old(self).metadata.workspaces@[slot as int].name@);
                    }
                }
            }
        } else {
            proof {
                assert forall|k2: int|
                    0 <= k2 < old(self).metadata.workspaces@.len() implies (#[trigger] old(self).metadata.workspaces@[k2]).name@ != name@ by {
                    assert(self.metadata.workspaces@[k2].name@ != name@);
                    assert(self.metadata.workspaces@[k2] == old(self).metadata.workspaces@[k2]);
                }
            }
            self.metadata.workspaces.push(ws);
            proof {
                assert(self.metadata.workspaces@.drop_last() =~= old(self).metadata.workspaces@);
                assert(self.metadata.workspaces@.last().name@ == name@);
                assert forall|i2: int, j2: int|
                    0 <= i2 < j2 < self.metadata.workspaces@.len() implies (
                #[trigger] self.metadata.workspaces@[i2]).name@ != (
                #[trigger] self.metadata.workspaces@[j2]).name@ by {
                    if j2 == self.metadata.workspaces@.len() - 1 {
                        assert(old(self).metadata.workspaces@[i2].name@ != name@);
                    }
                }
            }
        }
        Ok(())
    }

    /// Look up a workspace's repository identifiers by name.
    pub fn workspace_repo_ids(&self, name: &str) -> (r: Option<Vec<String>>)
        ensures
            match r {
                Some(ids) => exists|i: int|
                    0 <= i < self.metadata.workspaces@.len() && {
                        let w = #[trigger] self.metadata.workspaces@[i];
                        w.name@ == name@ && ids@.map_values(|s: String| s@)
                            == w.repo_ids@.map_values(|s: String| s@)
                    },
                None => !has_workspace(self.metadata, name@),
            },
    {
        let mut i: usize = 0;
        while i < self.metadata.workspaces.len()
            invariant
                0 <= i <= self.metadata.workspaces@.len(),
                forall|k: int|
                    0 <= k < i ==> (#[trigger] self.metadata.workspaces@[k]).name@ != name@,
            decreases self.metadata.workspaces@.len() - i,
        {
            if str_eq(self.metadata.workspaces[i].name.as_str(), name) {
                let src = &self.metadata.workspaces[i].repo_ids;
                let mut ids: Vec<String> = Vec::new();
                let mut j: usize = 0;
                while j < src.len()
                    invariant
                        0 <= j <= src@.len(),
                        ids@.len() == j,
                        forall|k: int| 0 <= k < j ==> (#[trigger] ids@[k])@ == src@[k]@,
                    decreases src@.len() - j,
                {
                    ids.push(src[j].clone());
                    j = j + 1;
                }
                proof {
                    assert(ids@.map_values(|s: String| s@) =~= src@.map_values(|s: String| s@));
                }
                return Some(ids);
            }
            i = i + 1;
        }
        None
    }

    /// Count the repositories by state for the status report: indexed,
    /// indexing (flag or in-flight task), pending embeddings, and graph
    /// building (flag or in-flight task).
    pub fn status_counts(&self) -> (r: StatusCounts)
        ensures
            r.indexed == self.metadata.repositories@.filter(indexed_pred()).len(),
            r.indexing == self.metadata.repositories@.filter(
                counts_indexing(self.indexing_cancels@),
            ).len(),
            r.pending_embed == self.metadata.repositories@.filter(pending_pred()).len(),
            r.graph_building == self.metadata.repositories@.filter(
                counts_graph_building(self.graph_cancels@),
            ).len(),
    {
        let ghost rv = self.metadata.repositories@;
        let mut indexed: usize = 0;
        let mut indexing: usize = 0;
        let mut pending: usize = 0;
        let mut building: usize = 0;
        let mut i: usize = 0;
        proof {
            assert(rv.take(0) =~= Seq::<RepoMeta>::empty());
            reveal(Seq::filter);
        }
        while i < self.metadata.repositories.len()
            invariant
                0 <= i <= rv.len(),
                rv == self.metadata.repositories@,
                indexed == rv.take(i as int).filter(indexed_pred()).len(),
                indexing == rv.take(i as int).filter(
                    counts_indexing(self.indexing_cancels@),
                ).len(),
                pending == rv.take(i as int).filter(pending_pred()).len(),
                building == rv.take(i as int).filter(
                    counts_graph_building(self.graph_cancels@),
                ).len(),
                indexed <= i && indexing <= i && pending <= i && building <= i,
            decreases rv.len() - i,
        {
            proof {
                assert(rv.take(i as int + 1) =~= rv.take(i as int).push(rv[i as int]));
                lemma_filter_push(rv.take(i as int), indexed_pred(), rv[i as int]);
                lemma_filter_push(
                    rv.take(i as int),
                    counts_indexing(self.indexing_cancels@),
                    rv[i as int],
                );
                lemma_filter_push(rv.take(i as int), pending_pred(), rv[i as int]);
                lemma_filter_push(
                    rv.take(i as int),
                    counts_graph_building(self.graph_cancels@),
                    rv[i as int],
                );
            }
            let m = &self.metadata.repositories[i];
            if !m.indexing && matches!(m.last_indexed_commit, Some(_)) {
                indexed = indexed + 1;
            }
            if m.indexing || set_contains(&self.indexing_cancels, m.id.as_str()) {
                indexing = indexing + 1;
            }
            if m.embed_pending {
                pending = pending + 1;
            }
            if m.graph_building || set_contains(&self.graph_cancels, m.id.as_str()) {
                building = building + 1;
            }
            i = i + 1;
        }
        proof {
            assert(rv.take(rv.len() as int) =~= rv);
        }
        StatusCounts { indexed, indexing, pending_embed: pending, graph_building: building }
    }
}

} // verus!
