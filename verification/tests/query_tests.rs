use code_intel::filters::{
    eq_filter, escape_literal, join_and, repo_in_filter, snippet_of, symbol_filter, target_filter,
};
use code_intel::graph::EdgeRecord;
use code_intel::ids::edge_id;
use code_intel::queries::{
    call_graph_bfs, effective_depth, group_dependencies, group_hierarchy, EdgeQueryResult,
};

fn call_edge(source_symbol: &str, target: &str, line: u32) -> EdgeRecord {
    EdgeRecord {
        id: edge_id("r1", "f.rs", line, target, "calls"),
        repo_id: "r1".to_string(),
        source_file: "f.rs".to_string(),
        source_symbol: source_symbol.to_string(),
        source_line: line,
        target_name: target.to_string(),
        target_qualified: String::new(),
        target_file: "g.rs".to_string(),
        edge_type: "calls".to_string(),
    }
}

#[test]
fn callees_bfs_reports_levels_up_to_depth() {
    let edges = vec![
        call_edge("foo", "bar", 1),
        call_edge("foo", "qux", 2),
        call_edge("bar", "baz", 3),
        call_edge("baz", "deep", 4),
    ];
    let out = call_graph_bfs(&edges, "foo", false, 2);
    let pairs: Vec<(String, String, u32)> =
        out.iter().map(|e| (e.from.clone(), e.to.clone(), e.depth)).collect();
    assert!(pairs.contains(&("foo".to_string(), "bar".to_string(), 1)));
    assert!(pairs.contains(&("foo".to_string(), "qux".to_string(), 1)));
    assert!(pairs.contains(&("bar".to_string(), "baz".to_string(), 2)));
    assert_eq!(out.len(), 3);
    assert!(out.iter().all(|e| e.depth <= 2 && e.depth >= 1));
}

#[test]
fn callers_bfs_walks_backwards() {
    let edges = vec![call_edge("foo", "bar", 1), call_edge("baz", "foo", 2)];
    let out = call_graph_bfs(&edges, "bar", true, 2);
    let pairs: Vec<(String, String, u32)> =
        out.iter().map(|e| (e.from.clone(), e.to.clone(), e.depth)).collect();
    assert!(pairs.contains(&("foo".to_string(), "bar".to_string(), 1)));
    assert!(pairs.contains(&("baz".to_string(), "foo".to_string(), 2)));
    assert_eq!(out.len(), 2);
}

#[test]
fn bfs_breaks_cycles() {
    let edges = vec![call_edge("a", "b", 1), call_edge("b", "a", 2)];
    let out = call_graph_bfs(&edges, "a", false, 5);
    assert_eq!(out.len(), 2);
}

#[test]
fn depth_defaults_to_two_and_caps_at_five() {
    assert_eq!(effective_depth(None), 2);
    assert_eq!(effective_depth(Some(4)), 4);
    assert_eq!(effective_depth(Some(99)), 5);
}

fn row(source_file: &str, target: &str, qualified: &str, line: u32) -> EdgeQueryResult {
    EdgeQueryResult {
        id: String::new(),
        repo_id: "r1".to_string(),
        source_file: source_file.to_string(),
        source_symbol: "s".to_string(),
        source_line: line,
        target_name: target.to_string(),
        target_qualified: qualified.to_string(),
        target_file: String::new(),
        edge_type: "imports".to_string(),
    }
}

#[test]
fn dependencies_group_by_source_file() {
    let rows = vec![
        row("a.rs", "x", "", 1),
        row("b.rs", "y", "", 2),
        row("a.rs", "z", "", 3),
    ];
    let groups = group_dependencies(&rows);
    assert_eq!(groups.len(), 2);
    assert_eq!(groups[0].file, "a.rs");
    assert_eq!(groups[0].imports.len(), 2);
    assert_eq!(groups[0].imports[0].target, "x");
    assert_eq!(groups[0].imports[1].target, "z");
    assert_eq!(groups[1].file, "b.rs");
}

#[test]
fn hierarchy_groups_by_qualified_name_else_raw() {
    let rows = vec![
        row("a.rs", "Display", "std::fmt::Display", 1),
        row("b.rs", "Display", "", 2),
        row("c.rs", "Display", "std::fmt::Display", 3),
    ];
    let groups = group_hierarchy(&rows);
    assert_eq!(groups.len(), 2);
    assert_eq!(groups[0].key, "std::fmt::Display");
    assert_eq!(groups[0].impls.len(), 2);
    assert_eq!(groups[1].key, "Display");
    assert_eq!(groups[1].impls.len(), 1);
}

#[test]
fn literals_double_their_quotes() {
    assert_eq!(escape_literal("plain"), "plain");
    assert_eq!(escape_literal("O'Brien"), "O''Brien");
    assert_eq!(eq_filter("repo_id", "a'b"), "repo_id = 'a''b'");
}

#[test]
fn filters_join_and_quote() {
    let parts = vec![
        eq_filter("repo_id", "r1"),
        eq_filter("language", "rust"),
    ];
    assert_eq!(join_and(&parts), "repo_id = 'r1' AND language = 'rust'");
    assert_eq!(
        repo_in_filter(&vec!["a".to_string(), "b".to_string()]),
        "repo_id IN ('a', 'b')"
    );
    assert_eq!(
        symbol_filter("f"),
        "(target_name = 'f' OR target_qualified = 'f' OR source_symbol = 'f')"
    );
    assert_eq!(target_filter("f"), "(target_name = 'f' OR target_qualified = 'f')");
}

#[test]
fn per_file_deletion_filter_names_repo_and_path() {
    let filter = join_and(&vec![
        eq_filter("repo_id", "R"),
        eq_filter("file_path", "src/a.rs"),
    ]);
    assert_eq!(filter, "repo_id = 'R' AND file_path = 'src/a.rs'");
}

#[test]
fn snippets_stop_at_three_hundred_characters() {
    let long: String = "x".repeat(400);
    assert_eq!(snippet_of(&long).len(), 300);
    assert_eq!(snippet_of("short"), "short");
}
