use code_intel::chunking::{chunk_file, split_lines};

fn numbered_lines(n: usize) -> String {
    let mut s = String::new();
    for i in 1..=n {
        s.push_str(&format!("line {i}\n"));
    }
    s
}

#[test]
fn ninety_nine_line_file_is_one_file_chunk() {
    let source = numbered_lines(99);
    let chunks = chunk_file(&source, "src/a.txt", "unknown", "r1");
    assert_eq!(chunks.len(), 1);
    let c = &chunks[0];
    assert_eq!(c.symbol_type, "file_chunk");
    assert_eq!(c.symbol_name, "");
    assert_eq!(c.start_line, 1);
    assert_eq!(c.end_line, 99);
    assert_eq!(c.content, source);
    assert_eq!(c.repo_id, "r1");
    assert_eq!(c.file_path, "src/a.txt");
    assert_eq!(c.language, "unknown");
}

#[test]
fn four_hundred_fifty_lines_without_symbols_yield_three_windows() {
    let source = numbered_lines(450);
    let chunks = chunk_file(&source, "notes.txt", "unknown", "r1");
    assert_eq!(chunks.len(), 3);
    assert_eq!((chunks[0].start_line, chunks[0].end_line), (1, 200));
    assert_eq!((chunks[1].start_line, chunks[1].end_line), (151, 350));
    assert_eq!((chunks[2].start_line, chunks[2].end_line), (301, 450));
    assert!(chunks[0].content.starts_with("line 1\n"));
    assert!(chunks[0].content.ends_with("line 200"));
    assert!(chunks[1].content.starts_with("line 151\n"));
    assert!(chunks[2].content.ends_with("line 450"));
    for c in &chunks {
        assert_eq!(c.symbol_type, "file_chunk");
        assert_eq!(c.symbol_name, "");
    }
}

#[test]
fn long_supported_file_with_symbols_gets_symbol_chunks() {
    let mut source = String::new();
    for i in 1..=60 {
        source.push_str(&format!("fn f{i}() {{\n}}\n"));
    }
    assert!(source.lines().count() >= 100);
    let chunks = chunk_file(&source, "src/lib.rs", "rust", "r1");
    assert_eq!(chunks.len(), 60);
    assert_eq!(chunks[0].symbol_name, "f1");
    assert_eq!(chunks[0].symbol_type, "function");
    assert_eq!(chunks[0].start_line, 1);
    assert_eq!(chunks[0].end_line, 2);
    assert_eq!(chunks[0].content, "fn f1() {\n}");
    assert_eq!(chunks[59].symbol_name, "f60");
}

#[test]
fn empty_file_is_one_empty_chunk() {
    let chunks = chunk_file("", "empty.txt", "unknown", "r1");
    assert_eq!(chunks.len(), 1);
    assert_eq!(chunks[0].start_line, 1);
    assert_eq!(chunks[0].end_line, 0);
    assert_eq!(chunks[0].content, "");
}

#[test]
fn split_lines_matches_std_lines() {
    for s in [
        "",
        "a",
        "a\n",
        "a\nb",
        "a\r\nb\r\n",
        "\n",
        "a\n\nc",
        "one\r\ntwo\nthree\r",
    ] {
        let ours = split_lines(s);
        let std_lines: Vec<&str> = s.lines().collect();
        assert_eq!(ours.len(), std_lines.len(), "input {s:?}");
        for (a, b) in ours.iter().zip(std_lines.iter()) {
            assert_eq!(a, b, "input {s:?}");
        }
    }
}
