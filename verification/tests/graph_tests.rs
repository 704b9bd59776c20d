use code_intel::extract::ExtractedReference;
use code_intel::graph::{
    build_file_edges, extract_import_map, find_containing_symbol, find_symbol_file, import_lookup,
    index_from_entries, merge_indices, EdgeBatcher, FileSymbols, MapEntry, SymbolIndex, SymbolInfo,
};
use code_intel::ids::edge_id;

fn sym(name: &str, start: u32, end: u32) -> SymbolInfo {
    SymbolInfo {
        name: name.to_string(),
        symbol_type: "function".to_string(),
        start_line: start,
        end_line: end,
    }
}

fn index(buckets: Vec<(&str, Vec<SymbolInfo>)>) -> SymbolIndex {
    SymbolIndex {
        files: buckets
            .into_iter()
            .map(|(f, symbols)| FileSymbols { file: f.to_string(), symbols })
            .collect(),
    }
}

fn reference(target: &str, edge_type: &str, line: u32) -> ExtractedReference {
    ExtractedReference {
        target_name: target.to_string(),
        edge_type: edge_type.to_string(),
        line,
    }
}

#[test]
fn unique_owner_resolves_to_its_file() {
    let idx = index(vec![("a.rs", vec![sym("foo", 1, 5)]), ("b.rs", vec![sym("bar", 1, 5)])]);
    assert_eq!(find_symbol_file("foo", &idx), "a.rs");
}

#[test]
fn ambiguous_owner_resolves_to_nothing() {
    let idx = index(vec![("a.rs", vec![sym("foo", 1, 5)]), ("b.rs", vec![sym("foo", 1, 5)])]);
    assert_eq!(find_symbol_file("foo", &idx), "");
    let idx2 = index(vec![]);
    assert_eq!(find_symbol_file("foo", &idx2), "");
}

#[test]
fn innermost_symbol_wins_containment() {
    let symbols = vec![sym("outer", 1, 100), sym("inner", 10, 20)];
    assert_eq!(find_containing_symbol(&symbols, 15), "inner");
    assert_eq!(find_containing_symbol(&symbols, 50), "outer");
    assert_eq!(find_containing_symbol(&symbols, 200), "");
}

#[test]
fn import_map_keys_by_short_name_and_last_wins() {
    let refs = vec![
        reference("crate::auth::validate", "imports", 1),
        reference("./utils", "imports", 2),
        reference("helper", "calls", 3),
        reference("other::validate", "imports", 4),
    ];
    let map = extract_import_map(&refs);
    assert_eq!(map.len(), 3);
    let v = import_lookup(&map, "validate").unwrap();
    assert_eq!(v, "other::validate");
    let u = import_lookup(&map, "utils").unwrap();
    assert_eq!(u, "./utils");
    assert!(import_lookup(&map, "helper").is_none());
}

#[test]
fn edges_follow_resolution_rules() {
    let merged = index(vec![
        ("a.rs", vec![sym("validate", 1, 9)]),
        ("b.rs", vec![sym("bar", 1, 9)]),
        ("cur.rs", vec![sym("caller", 1, 50), sym("local", 60, 70)]),
    ]);
    let file_symbols = vec![sym("caller", 1, 50), sym("local", 60, 70)];
    let refs = vec![
        reference("auth::validate", "calls", 5),
        reference("validate", "calls", 6),
        reference("local", "calls", 7),
        reference("bar", "calls", 8),
        reference("nowhere", "calls", 9),
    ];
    let import_map = extract_import_map(&vec![reference("auth::validate", "imports", 1)]);
    let edges = build_file_edges("r1", "cur.rs", &refs, &file_symbols, &import_map, &merged);
    assert_eq!(edges.len(), 5);

    // Rule 1: already qualified keeps its spelling; short name owner found.
    assert_eq!(edges[0].target_qualified, "auth::validate");
    assert_eq!(edges[0].target_file, "a.rs");
    assert_eq!(edges[0].source_symbol, "caller");
    assert_eq!(edges[0].id, edge_id("r1", "cur.rs", 5, "auth::validate", "calls"));

    // Rule 2: import-guided substitution.
    assert_eq!(edges[1].target_qualified, "auth::validate");
    assert_eq!(edges[1].target_file, "a.rs");

    // Rule 3: same-file symbol.
    assert_eq!(edges[2].target_qualified, "local");
    assert_eq!(edges[2].target_file, "cur.rs");

    // Rule 4: globally unique owner.
    assert_eq!(edges[3].target_qualified, "bar");
    assert_eq!(edges[3].target_file, "b.rs");

    // Rule 5: unresolved.
    assert_eq!(edges[4].target_qualified, "");
    assert_eq!(edges[4].target_file, "");
}

#[test]
fn ambiguous_short_name_leaves_target_file_empty() {
    let merged = index(vec![
        ("a.rs", vec![sym("foo", 1, 5)]),
        ("b.rs", vec![sym("foo", 1, 5)]),
    ]);
    let refs = vec![reference("foo", "calls", 2)];
    let edges = build_file_edges("r1", "cur.rs", &refs, &vec![], &vec![], &merged);
    assert_eq!(edges[0].target_file, "");
}

#[test]
fn entries_group_into_an_index_and_merge_prefers_direct() {
    let entries = vec![
        MapEntry {
            file_path: "a.rs".to_string(),
            symbol_name: "stale".to_string(),
            symbol_type: "function".to_string(),
            start_line: 1,
            end_line: 2,
        },
        MapEntry {
            file_path: "c.rs".to_string(),
            symbol_name: "only_in_table".to_string(),
            symbol_type: "function".to_string(),
            start_line: 3,
            end_line: 4,
        },
    ];
    let global = index_from_entries(&entries);
    assert_eq!(global.files.len(), 2);
    let direct = index(vec![("a.rs", vec![sym("fresh", 1, 2)])]);
    let merged = merge_indices(direct, &global);
    assert_eq!(merged.files.len(), 2);
    assert_eq!(merged.files[0].file, "a.rs");
    assert_eq!(merged.files[0].symbols[0].name, "fresh");
    assert_eq!(merged.files[1].file, "c.rs");
    assert_eq!(merged.files[1].symbols[0].name, "only_in_table");
}

#[test]
fn batcher_counts_every_released_edge() {
    let mut b = EdgeBatcher::new();
    let merged = index(vec![]);
    let refs = vec![reference("x", "calls", 1)];
    let edges = build_file_edges("r1", "f.rs", &refs, &vec![], &vec![], &merged);
    for _ in 0..3 {
        for e in &edges {
            b.push(code_intel::graph::EdgeRecord {
                id: e.id.clone(),
                repo_id: e.repo_id.clone(),
                source_file: e.source_file.clone(),
                source_symbol: e.source_symbol.clone(),
                source_line: e.source_line,
                target_name: e.target_name.clone(),
                target_qualified: e.target_qualified.clone(),
                target_file: e.target_file.clone(),
                edge_type: e.edge_type.clone(),
            });
        }
    }
    assert!(!b.ready());
    let released = b.flush();
    assert_eq!(released.len(), 3);
    assert_eq!(b.total, 3);
    assert_eq!(b.batch.len(), 0);
}
