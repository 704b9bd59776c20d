use code_intel::extract::{extract_references, extract_symbols};
use code_intel::languages::{detect_language, get_ref_query_source, should_skip_file};

#[test]
fn detection_goes_by_extension() {
    assert_eq!(detect_language("src/main.rs"), Some("rust"));
    assert_eq!(detect_language("a/b/mod.py"), Some("python"));
    assert_eq!(detect_language("x.tsx"), Some("typescript"));
    assert_eq!(detect_language("x.mjs"), Some("javascript"));
    assert_eq!(detect_language("pkg/util.go"), Some("go"));
    assert_eq!(detect_language("App.java"), Some("java"));
    assert_eq!(detect_language("lib.h"), Some("c"));
    assert_eq!(detect_language("thing.hpp"), Some("cpp"));
    assert_eq!(detect_language("App.kt"), Some("kotlin"));
    assert_eq!(detect_language("README.md"), None);
    assert_eq!(detect_language("noextension"), None);
}

#[test]
fn ref_queries_exist_exactly_for_supported_languages() {
    for lang in ["rust", "python", "typescript", "javascript", "go", "java", "c", "cpp", "kotlin"]
    {
        assert!(get_ref_query_source(lang).is_some(), "{lang}");
    }
    assert!(get_ref_query_source("markdown").is_none());
}

#[test]
fn skip_policy_by_size_and_extension() {
    assert!(should_skip_file("big.rs", 1_048_577));
    assert!(!should_skip_file("big.rs", 1_048_576));
    assert!(should_skip_file("image.png", 10));
    assert!(should_skip_file("IMAGE.PNG", 10));
    assert!(should_skip_file("Cargo.lock", 10));
    assert!(!should_skip_file("src/lib.rs", 10));
    assert!(!should_skip_file("site.min.js", 10));
    assert!(!should_skip_file("noextension", 10));
}

#[test]
fn rust_symbols_are_extracted_with_lines() {
    let src = "fn alpha() {\n    beta();\n}\n\nstruct Gamma {\n    x: u8,\n}\n";
    let syms = extract_symbols(src, "rust").unwrap();
    assert_eq!(syms.len(), 2);
    assert_eq!(syms[0].name, "alpha");
    assert_eq!(syms[0].symbol_type, "function");
    assert_eq!(syms[0].start_line, 1);
    assert_eq!(syms[0].end_line, 3);
    assert_eq!(syms[0].content, "fn alpha() {\n    beta();\n}");
    assert_eq!(syms[1].name, "Gamma");
    assert_eq!(syms[1].symbol_type, "struct");
}

#[test]
fn rust_references_cover_calls_imports_impls() {
    let src = "use std::collections::HashMap;\n\nimpl Display for Foo {}\n\nfn main() {\n    helper();\n}\n";
    let refs = extract_references(src, "rust").unwrap();
    let calls: Vec<_> = refs.iter().filter(|r| r.edge_type == "calls").collect();
    let imports: Vec<_> = refs.iter().filter(|r| r.edge_type == "imports").collect();
    let impls: Vec<_> = refs.iter().filter(|r| r.edge_type == "implements").collect();
    assert_eq!(calls.len(), 1);
    assert_eq!(calls[0].target_name, "helper");
    assert_eq!(calls[0].line, 6);
    assert_eq!(imports.len(), 1);
    assert_eq!(imports[0].target_name, "HashMap");
    assert_eq!(impls.len(), 1);
    assert_eq!(impls[0].target_name, "Display");
}

#[test]
fn string_imports_lose_their_quotes() {
    let src = "import { x } from './utils';\nfunction go() { x(); }\n";
    let refs = extract_references(src, "javascript").unwrap();
    let imports: Vec<_> = refs.iter().filter(|r| r.edge_type == "imports").collect();
    assert_eq!(imports.len(), 1);
    assert_eq!(imports[0].target_name, "./utils");
}

#[test]
fn unsupported_language_is_an_error() {
    assert!(extract_symbols("x", "markdown").is_err());
    assert!(extract_references("x", "markdown").is_err());
}
