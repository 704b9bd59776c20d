use code_intel::indexer::{
    latch_embed_pending, partition_diff, plan_sync, ChunkBatcher, DeltaKind, DiffDelta,
    IndexResult, SyncPlan,
};
use code_intel::graph::GraphResult;
use code_intel::registry::{AddStatus, Registry};

fn add_ok(reg: &mut Registry, id: &str) {
    let status = reg.add_repository(id, "repoA", "/tmp/ci/repoA");
    assert!(matches!(status, AddStatus::Indexing));
}

#[test]
fn adding_twice_keeps_one_entry() {
    let mut reg = Registry::new();
    add_ok(&mut reg, "r1");
    // The first add leaves an indexing task in flight: a second add backs off.
    let again = reg.add_repository("r1", "repoA", "/tmp/ci/repoA");
    assert!(matches!(again, AddStatus::AlreadyIndexing));
    assert_eq!(reg.metadata.repositories.len(), 1);
    // After the task completes, re-adding still creates no second entry.
    reg.finish_index(
        "r1",
        Ok(IndexResult { chunk_count: 3, embed_pending: false, head_commit: Some("c1".to_string()) }),
        "2021-01-01T00:00:00Z",
    );
    add_ok(&mut reg, "r1");
    assert_eq!(reg.metadata.repositories.len(), 1);
}

#[test]
fn status_counts_follow_the_lifecycle() {
    let mut reg = Registry::new();
    add_ok(&mut reg, "r1");
    let counts = reg.status_counts();
    assert_eq!(counts.indexing, 1);
    assert_eq!(counts.indexed, 0);
    reg.finish_index(
        "r1",
        Ok(IndexResult { chunk_count: 5, embed_pending: false, head_commit: Some("c1".to_string()) }),
        "2021-01-01T00:00:00Z",
    );
    let counts = reg.status_counts();
    assert_eq!(counts.indexing, 0);
    assert_eq!(counts.indexed, 1);
    assert_eq!(reg.metadata.repositories[0].chunk_count, 5);
    assert_eq!(
        reg.metadata.repositories[0].last_indexed_commit.as_deref(),
        Some("c1")
    );
    assert!(reg.metadata.repositories[0].last_sync_error.is_none());
}

#[test]
fn failure_latches_the_error_and_keeps_counters() {
    let mut reg = Registry::new();
    add_ok(&mut reg, "r1");
    reg.finish_index(
        "r1",
        Ok(IndexResult { chunk_count: 5, embed_pending: false, head_commit: Some("c1".to_string()) }),
        "t1",
    );
    add_ok(&mut reg, "r1");
    reg.finish_index("r1", Err("boom".to_string()), "t2");
    let m = &reg.metadata.repositories[0];
    assert_eq!(m.chunk_count, 5);
    assert_eq!(m.last_sync_error.as_deref(), Some("boom"));
    assert!(!m.indexing);
}

#[test]
fn removal_cancels_and_forgets_the_repository() {
    let mut reg = Registry::new();
    add_ok(&mut reg, "r1");
    assert!(reg.is_indexing("r1"));
    let removed = reg.remove_repository("r1");
    assert!(removed);
    assert!(!reg.is_indexing("r1"));
    assert!(!reg.is_graph_building("r1"));
    assert_eq!(reg.metadata.repositories.len(), 0);
    assert!(!reg.remove_repository("r1"));
}

#[test]
fn removal_purges_workspaces() {
    let mut reg = Registry::new();
    add_ok(&mut reg, "r1");
    add_ok(&mut reg, "r2");
    reg.finish_index("r1", Err("e".to_string()), "t");
    reg.finish_index("r2", Err("e".to_string()), "t");
    reg.create_workspace("ws", "", vec!["r1".to_string(), "r2".to_string()])
        .unwrap();
    reg.remove_repository("r1");
    assert_eq!(reg.metadata.workspaces[0].repo_ids, vec!["r2".to_string()]);
}

#[test]
fn workspaces_reject_unknown_repositories() {
    let mut reg = Registry::new();
    add_ok(&mut reg, "r1");
    let err = reg
        .create_workspace("ws", "d", vec!["r1".to_string(), "ghost".to_string()])
        .unwrap_err();
    assert_eq!(err, "Unknown repository: ghost");
    assert!(reg.metadata.workspaces.is_empty());
}

#[test]
fn graph_build_claims_are_exclusive() {
    let mut reg = Registry::new();
    add_ok(&mut reg, "r1");
    assert!(reg.begin_graph_build("r1"));
    assert!(!reg.begin_graph_build("r1"));
    reg.finish_graph_build(
        "r1",
        Ok(GraphResult { edge_count: 7, head_commit: Some("c1".to_string()) }),
        "t",
    );
    assert!(!reg.is_graph_building("r1"));
    assert_eq!(reg.metadata.repositories[0].graph_edge_count, 7);
    assert!(reg.begin_graph_build("r1"));
}

#[test]
fn sync_planning_follows_head_and_history() {
    assert!(matches!(plan_sync("c1", "c1", true), SyncPlan::NoOp));
    assert!(matches!(plan_sync("c2", "c1", true), SyncPlan::Diff));
    assert!(matches!(plan_sync("c2", "c1", false), SyncPlan::FullReindex));
}

#[test]
fn sync_selection_skips_inflight_repositories() {
    let mut reg = Registry::new();
    add_ok(&mut reg, "r1");
    add_ok(&mut reg, "r2");
    reg.finish_index(
        "r2",
        Ok(IndexResult { chunk_count: 1, embed_pending: false, head_commit: Some("c9".to_string()) }),
        "t",
    );
    let picks = reg.repos_to_sync(None);
    assert_eq!(picks.len(), 1);
    assert_eq!(picks[0].0, "r2");
    assert_eq!(picks[0].2.as_deref(), Some("c9"));
    let picks = reg.repos_to_sync(Some("r1"));
    assert!(picks.is_empty());
}

#[test]
fn diff_partition_splits_deletes_from_changes() {
    let deltas = vec![
        DiffDelta { path: "src/a.rs".to_string(), kind: DeltaKind::Deleted },
        DiffDelta { path: "src/b.rs".to_string(), kind: DeltaKind::Modified },
        DiffDelta { path: "src/c.rs".to_string(), kind: DeltaKind::Added },
        DiffDelta { path: "renamed".to_string(), kind: DeltaKind::Other },
    ];
    let (deleted, changed) = partition_diff(&deltas);
    assert_eq!(deleted, vec!["src/a.rs".to_string()]);
    assert_eq!(changed, vec!["src/b.rs".to_string(), "src/c.rs".to_string()]);
}

#[test]
fn embed_pending_latches_for_the_run() {
    assert!(!latch_embed_pending(false, true));
    assert!(latch_embed_pending(false, false));
    assert!(latch_embed_pending(true, true));
}

#[test]
fn chunk_batches_release_at_thirty_two() {
    let mut b = ChunkBatcher::new();
    let chunks = code_intel::chunking::chunk_file("fn a() {}\n", "a.rs", "rust", "r1");
    for _ in 0..32 {
        for c in &chunks {
            b.push(code_intel::chunking::ChunkRecord {
                id: c.id.clone(),
                repo_id: c.repo_id.clone(),
                file_path: c.file_path.clone(),
                language: c.language.clone(),
                symbol_name: c.symbol_name.clone(),
                symbol_type: c.symbol_type.clone(),
                start_line: c.start_line,
                end_line: c.end_line,
                content: c.content.clone(),
            });
        }
    }
    assert!(b.ready());
    let batch = b.flush();
    assert_eq!(batch.len(), 32);
    assert_eq!(b.total, 32);
    assert!(!b.ready());
}
