//! Symbol and reference extraction through tree-sitter: the grammar and
//! query machinery is trusted at a narrow interface that hands matches out
//! as plain values; the capture semantics are verified on top of it.

use vstd::prelude::*;
use vstd::string::StrSliceExecFns;
use crate::text::{str_eq, trim_char, trimmed};
use crate::languages::{supported_lang, sym_query_of, ref_query_of};
use crate::languages::{
    RUST_QUERY,
    PYTHON_QUERY,
    TYPESCRIPT_QUERY,
    JAVASCRIPT_QUERY,
    GO_QUERY,
    JAVA_QUERY,
    C_QUERY,
    CPP_QUERY,
    KOTLIN_QUERY,
};

verus! {

#[verifier::external_type_specification]
#[verifier::external_body]
pub struct ExTsLanguage(tree_sitter::Language);

#[verifier::external_type_specification]
#[verifier::external_body]
pub struct ExTsTree(tree_sitter::Tree);

#[verifier::external_type_specification]
#[verifier::external_body]
pub struct ExTsQuery(tree_sitter::Query);

/// One capture of a query match, as plain values: the capture's index into
/// the query's capture-name table, the captured node's source text, and its
/// zero-based start and end rows (saturated at `u32::MAX`).
pub struct RawCapture {
    pub index: usize,
    pub text: String,
    pub start_row: u32,
    pub end_row: u32,
}

/// One query match: its captures in match order.
pub struct RawMatch {
    pub captures: Vec<RawCapture>,
}

/// Relies on tree_sitter_rust's `LANGUAGE` grammar constant.
#[verifier::external_body]
pub(crate) fn ts_language_rust() -> tree_sitter::Language {
    tree_sitter_rust::LANGUAGE.into()
}

/// Relies on tree-sitter's `Parser::new`, `Parser::set_language` and
/// `Parser::parse`: parse the source with the given grammar, `None` on
/// failure.
#[verifier::external_body]
pub(crate) fn ts_parse(language: &tree_sitter::Language, source: &str) -> Option<tree_sitter::Tree> {
    let mut parser = tree_sitter::Parser::new();
    if parser.set_language(language).is_err() {
        return None;
    }
    parser.parse(source, None)
}

/// Relies on tree-sitter's `Query::new`: compile a query against a grammar,
/// `None` where the query source is rejected.
#[verifier::external_body]
pub(crate) fn ts_query_new(language: &tree_sitter::Language, query_source: &str) -> Option<
    tree_sitter::Query,
> {
    match tree_sitter::Query::new(language, query_source) {
        Ok(q) => Some(q),
        Err(_) => None,
    }
}

/// Relies on tree-sitter's `Query::capture_names`: the query's capture-name
/// table, converted to owned strings.
#[verifier::external_body]
pub(crate) fn ts_query_capture_names(query: &tree_sitter::Query) -> Vec<String> {
    query.capture_names().iter().map(|s| s.to_string()).collect()
}

/// Relies on tree-sitter's `QueryCursor::matches` (drained through
/// `StreamingIterator::next`) and on the `Node` accessors `utf8_text`,
/// `start_position` and `end_position`: every match of the query on the
/// tree, each capture converted to plain values.
#[verifier::external_body]
pub(crate) fn ts_query_matches(query: &tree_sitter::Query, tree: &tree_sitter::Tree, source: &str)
    -> Vec<RawMatch> {
    let mut cursor = tree_sitter::QueryCursor::new();
    let mut it = cursor.matches(query, tree.root_node(), source.as_bytes());
    let mut out: Vec<RawMatch> = Vec::new();
    while let Some(m) = tree_sitter::StreamingIterator::next(&mut it) {
        let captures: Vec<RawCapture> = m.captures().iter().map(|c| RawCapture {
            index: c.index as usize,
            text: c.node.utf8_text(source.as_bytes()).unwrap_or("").to_string(),
            start_row: u32::try_from(c.node.start_position().row).unwrap_or(u32::MAX),
            end_row: u32::try_from(c.node.end_position().row).unwrap_or(u32::MAX),
        }).collect();
        out.push(RawMatch { captures });
    }
    out
}

} // verus!

verus! {

/// Relies on tree_sitter_python's `LANGUAGE` grammar constant.
#[verifier::external_body]
pub(crate) fn ts_language_python() -> tree_sitter::Language {
    tree_sitter_python::LANGUAGE.into()
}

/// Relies on tree_sitter_typescript's `LANGUAGE_TYPESCRIPT` grammar constant.
#[verifier::external_body]
pub(crate) fn ts_language_typescript() -> tree_sitter::Language {
    tree_sitter_typescript::LANGUAGE_TYPESCRIPT.into()
}

/// Relies on tree_sitter_javascript's `LANGUAGE` grammar constant.
#[verifier::external_body]
pub(crate) fn ts_language_javascript() -> tree_sitter::Language {
    tree_sitter_javascript::LANGUAGE.into()
}

/// Relies on tree_sitter_go's `LANGUAGE` grammar constant.
#[verifier::external_body]
pub(crate) fn ts_language_go() -> tree_sitter::Language {
    tree_sitter_go::LANGUAGE.into()
}

/// Relies on tree_sitter_java's `LANGUAGE` grammar constant.
#[verifier::external_body]
pub(crate) fn ts_language_java() -> tree_sitter::Language {
    tree_sitter_java::LANGUAGE.into()
}

/// Relies on tree_sitter_c's `LANGUAGE` grammar constant.
#[verifier::external_body]
pub(crate) fn ts_language_c() -> tree_sitter::Language {
    tree_sitter_c::LANGUAGE.into()
}

/// Relies on tree_sitter_cpp's `LANGUAGE` grammar constant.
#[verifier::external_body]
pub(crate) fn ts_language_cpp() -> tree_sitter::Language {
    tree_sitter_cpp::LANGUAGE.into()
}

/// Relies on tree_sitter_kotlin_ng's `LANGUAGE` grammar constant.
#[verifier::external_body]
pub(crate) fn ts_language_kotlin() -> tree_sitter::Language {
    tree_sitter_kotlin_ng::LANGUAGE.into()
}

/// A supported language's grammar and symbol query.
pub struct LanguageEntry {
    pub name: &'static str,
    pub language: tree_sitter::Language,
    pub query_source: &'static str,
}

/// Look up the grammar and symbol query for a language name; `Some` exactly
/// for the supported languages.
pub fn get_language_entry(lang: &str) -> (r: Option<LanguageEntry>)
    ensures
        match r {
            Some(e) => supported_lang(lang@) && e.name@ == lang@ && sym_query_of(lang@) == Some(
                e.query_source@,
            ),
            None => !supported_lang(lang@),
        },
{
    if str_eq(lang, "rust") {
        Some(LanguageEntry { name: "rust", language: ts_language_rust(), query_source: RUST_QUERY })
    } else if str_eq(lang, "python") {
        Some(LanguageEntry {
            name: "python",
            language: ts_language_python(),
            query_source: PYTHON_QUERY,
        })
    } else if str_eq(lang, "typescript") {
        Some(LanguageEntry {
            name: "typescript",
            language: ts_language_typescript(),
            query_source: TYPESCRIPT_QUERY,
        })
    } else if str_eq(lang, "javascript") {
        Some(LanguageEntry {
            name: "javascript",
            language: ts_language_javascript(),
            query_source: JAVASCRIPT_QUERY,
        })
    } else if str_eq(lang, "go") {
        Some(LanguageEntry { name: "go", language: ts_language_go(), query_source: GO_QUERY })
    } else if str_eq(lang, "java") {
        Some(LanguageEntry { name: "java", language: ts_language_java(), query_source: JAVA_QUERY })
    } else if str_eq(lang, "c") {
        Some(LanguageEntry { name: "c", language: ts_language_c(), query_source: C_QUERY })
    } else if str_eq(lang, "cpp") {
        Some(LanguageEntry { name: "cpp", language: ts_language_cpp(), query_source: CPP_QUERY })
    } else if str_eq(lang, "kotlin") {
        Some(LanguageEntry {
            name: "kotlin",
            language: ts_language_kotlin(),
            query_source: KOTLIN_QUERY,
        })
    } else {
        None
    }
}

/// A symbol extracted from a query match.
pub struct ExtractedSymbol {
    pub name: String,
    pub symbol_type: String,
    pub start_line: u32,
    pub end_line: u32,
    pub content: String,
}

/// A reference extracted from a query match: a call, import, or
/// implementation target.
pub struct ExtractedReference {
    pub target_name: String,
    pub edge_type: String,
    pub line: u32,
}

/// The one-based line for a zero-based row, saturated at `u32::MAX`.
pub open spec fn line_of_row(row: u32) -> u32 {
    if row == u32::MAX {
        u32::MAX
    } else {
        (row + 1) as u32
    }
}

/// Turn a zero-based row into a one-based line, saturated at `u32::MAX`.
pub fn row_to_line(row: u32) -> (r: u32)
    ensures
        r == line_of_row(row),
{
    if row == u32::MAX {
        u32::MAX
    } else {
        row + 1
    }
}

/// The capture name for a capture index, empty where the index is out of
/// range of the query's capture-name table.
pub open spec fn cap_name(names: Seq<String>, idx: int) -> Seq<char> {
    if 0 <= idx < names.len() {
        names[idx]@
    } else {
        Seq::<char>::empty()
    }
}

/// The symbol fields accumulated over a match's captures, in order: name,
/// type, start line, end line, content, and whether an outer capture was
/// seen. A `symbol_name` capture sets the name; any other capture is the
/// outer one and sets the rest. Later captures win.
pub open spec fn sym_scan(
    caps: Seq<RawCapture>,
    names: Seq<String>,
    acc: (Seq<char>, Seq<char>, u32, u32, Seq<char>, bool),
) -> (Seq<char>, Seq<char>, u32, u32, Seq<char>, bool)
    decreases caps.len(),
{
    if caps.len() == 0 {
        acc
    } else {
        let c = caps[0];
        let nm = cap_name(names, c.index as int);
        let acc2 = if nm == "symbol_name"@ {
            (c.text@, acc.1, acc.2, acc.3, acc.4, acc.5)
        } else {
            (acc.0, nm, line_of_row(c.start_row), line_of_row(c.end_row), c.text@, true)
        };
        sym_scan(caps.skip(1), names, acc2)
    }
}

/// The initial symbol accumulator: everything empty.
pub open spec fn sym_scan_init() -> (Seq<char>, Seq<char>, u32, u32, Seq<char>, bool) {
    (Seq::<char>::empty(), Seq::<char>::empty(), 0u32, 0u32, Seq::<char>::empty(), false)
}

/// The symbol a match yields, if both a name and an outer capture were
/// seen.
pub open spec fn match_symbol(m: RawMatch, names: Seq<String>) -> Option<
    (Seq<char>, Seq<char>, u32, u32, Seq<char>),
> {
    let a = sym_scan(m.captures@, names, sym_scan_init());
    if a.0.len() > 0 && a.1.len() > 0 && a.5 {
        Some((a.0, a.1, a.2, a.3, a.4))
    } else {
        None
    }
}

/// The symbols yielded by a sequence of matches, in match order.
pub open spec fn symbols_of(ms: Seq<RawMatch>, names: Seq<String>) -> Seq<
    (Seq<char>, Seq<char>, u32, u32, Seq<char>),
>
    decreases ms.len(),
{
    if ms.len() == 0 {
        Seq::empty()
    } else {
        match match_symbol(ms[0], names) {
            Some(s) => seq![s] + symbols_of(ms.skip(1), names),
            None => symbols_of(ms.skip(1), names),
        }
    }
}

/// Interpret symbol-query matches: for each match, the last `symbol_name`
/// capture gives the name and the last other capture gives the category,
/// lines and source text; matches missing either are dropped.
pub fn symbols_from_matches(matches: &Vec<RawMatch>, names: &Vec<String>) -> (r: Vec<
    ExtractedSymbol,
>)
    ensures
        r@.len() == symbols_of(matches@, names@).len(),
        forall|k: int|
            0 <= k < r@.len() ==> {
                let s = symbols_of(matches@, names@)[k];
                #[trigger] r@[k].name@ == s.0 && r@[k].symbol_type@ == s.1 && r@[k].start_line
                    == s.2 && r@[k].end_line == s.3 && r@[k].content@ == s.4
            },
{
    let mut out: Vec<ExtractedSymbol> = Vec::new();
    let mut i: usize = 0;
    proof {
        assert(matches@.skip(0) =~= matches@);
        assert(out@.map_values(
            |e: ExtractedSymbol| (e.name@, e.symbol_type@, e.start_line, e.end_line, e.content@),
        ) =~= Seq::<(Seq<char>, Seq<char>, u32, u32, Seq<char>)>::empty());
    }
    while i < matches.len()
        invariant
            0 <= i <= matches@.len(),
            symbols_of(matches@, names@) == out@.map_values(
                |e: ExtractedSymbol| (e.name@, e.symbol_type@, e.start_line, e.end_line, e.content@),
            ) + symbols_of(matches@.skip(i as int), names@),
        decreases matches@.len() - i,
    {
        let m = &matches[i];
        let mut name = String::new();
        let mut symbol_type = String::new();
        let mut start_line: u32 = 0;
        let mut end_line: u32 = 0;
        let mut content = String::new();
        let mut has_outer = false;
        let mut j: usize = 0;
        proof {
            assert(m.captures@.skip(0) =~= m.captures@);
            assert((name@, symbol_type@, start_line, end_line, content@, has_outer)
                == sym_scan_init());
        }
        while j < m.captures.len()
            invariant
                0 <= j <= m.captures@.len(),
                sym_scan(m.captures@, names@, sym_scan_init()) == sym_scan(
                    m.captures@.skip(j as int),
                    names@,
                    (name@, symbol_type@, start_line, end_line, content@, has_outer),
                ),
            decreases m.captures@.len() - j,
        {
            let c = &m.captures[j];
            proof {
                assert(m.captures@.skip(j as int)[0] == m.captures@[j as int]);
                assert(m.captures@.skip(j as int).skip(1) =~= m.captures@.skip(j as int + 1));
            }
            let nm: &str = if c.index < names.len() {
                names[c.index].as_str()
            } else {
                ""
            };
            proof {
                reveal_strlit("");
                assert(nm@ == cap_name(names@, c.index as int));
            }
            if str_eq(nm, "symbol_name") {
                name = c.text.clone();
            } else {
                symbol_type = nm.to_owned();
                start_line = row_to_line(c.start_row);
                end_line = row_to_line(c.end_row);
                content = c.text.clone();
                has_outer = true;
            }
            j = j + 1;
        }
        proof {
            assert(m.captures@.skip(m.captures@.len() as int) =~= Seq::<RawCapture>::empty());
            assert(matches@.skip(i as int)[0] == matches@[i as int]);
            assert(matches@.skip(i as int).skip(1) =~= matches@.skip(i as int + 1));
        }
        if name.unicode_len() > 0 && symbol_type.unicode_len() > 0 && has_outer {
            let sym = ExtractedSymbol {
                name,
                symbol_type,
                start_line,
                end_line,
                content,
            };
            out.push(sym);
            proof {
                assert(out@.map_values(
                    |e: ExtractedSymbol| (e.name@, e.symbol_type@, e.start_line, e.end_line,
                    e.content@),
                ) =~= out@.drop_last().map_values(
                    |e: ExtractedSymbol| (e.name@, e.symbol_type@, e.start_line, e.end_line,
                    e.content@),
                ).push((out@.last().name@, out@.last().symbol_type@, out@.last().start_line,
                out@.last().end_line, out@.last().content@)));
            }
        }
        i = i + 1;
    }
    proof {
        assert(matches@.skip(matches@.len() as int) =~= Seq::<RawMatch>::empty());
    }
    out
}

} // verus!

verus! {

/// The reference fields accumulated over a match's captures, in order:
/// target spelling, edge type, and line. Target captures set the spelling
/// and line — except that `import_module` never overwrites a spelling
/// already seen — and edge-kind captures set the type. Later captures win.
pub open spec fn ref_scan(
    caps: Seq<RawCapture>,
    names: Seq<String>,
    acc: (Seq<char>, Seq<char>, u32),
) -> (Seq<char>, Seq<char>, u32)
    decreases caps.len(),
{
    if caps.len() == 0 {
        acc
    } else {
        let c = caps[0];
        let nm = cap_name(names, c.index as int);
        let acc2 = if nm == "call_target"@ || nm == "import_target"@ || nm == "impl_target"@
            || nm == "import_module"@ {
            if nm == "import_module"@ && acc.0.len() > 0 {
                acc
            } else {
                (c.text@, acc.1, line_of_row(c.start_row))
            }
        } else if nm == "calls"@ {
            (acc.0, "calls"@, acc.2)
        } else if nm == "imports"@ {
            (acc.0, "imports"@, acc.2)
        } else if nm == "implements"@ {
            (acc.0, "implements"@, acc.2)
        } else {
            acc
        };
        ref_scan(caps.skip(1), names, acc2)
    }
}

/// The initial reference accumulator: everything empty.
pub open spec fn ref_scan_init() -> (Seq<char>, Seq<char>, u32) {
    (Seq::<char>::empty(), Seq::<char>::empty(), 0u32)
}

/// A target spelling with surrounding double then single quotes stripped,
/// as string-literal import syntaxes require.
pub open spec fn cleaned_target(t: Seq<char>) -> Seq<char> {
    trimmed(trimmed(t, '"'), '\'')
}

/// The reference a match yields, if both a target and an edge type were
/// seen: the cleaned target spelling, the edge type, and the line.
pub open spec fn match_reference(m: RawMatch, names: Seq<String>) -> Option<
    (Seq<char>, Seq<char>, u32),
> {
    let a = ref_scan(m.captures@, names, ref_scan_init());
    if a.0.len() > 0 && a.1.len() > 0 {
        Some((cleaned_target(a.0), a.1, a.2))
    } else {
        None
    }
}

/// The references yielded by a sequence of matches, in match order.
pub open spec fn references_of(ms: Seq<RawMatch>, names: Seq<String>) -> Seq<
    (Seq<char>, Seq<char>, u32),
>
    decreases ms.len(),
{
    if ms.len() == 0 {
        Seq::empty()
    } else {
        match match_reference(ms[0], names) {
            Some(s) => seq![s] + references_of(ms.skip(1), names),
            None => references_of(ms.skip(1), names),
        }
    }
}

/// Interpret reference-query matches: for each match, the last target
/// capture gives the spelling and line (`import_module` yields to an
/// already-seen target name) and the last edge-kind capture gives the edge
/// type; matches missing either are dropped, and surrounding quotes are
/// stripped from the spelling.
pub fn references_from_matches(matches: &Vec<RawMatch>, names: &Vec<String>) -> (r: Vec<
    ExtractedReference,
>)
    ensures
        r@.len() == references_of(matches@, names@).len(),
        forall|k: int|
            0 <= k < r@.len() ==> {
                let s = references_of(matches@, names@)[k];
                #[trigger] r@[k].target_name@ == s.0 && r@[k].edge_type@ == s.1 && r@[k].line
                    == s.2
            },
{
    let mut out: Vec<ExtractedReference> = Vec::new();
    let mut i: usize = 0;
    proof {
        assert(matches@.skip(0) =~= matches@);
        assert(out@.map_values(
            |e: ExtractedReference| (e.target_name@, e.edge_type@, e.line),
        ) =~= Seq::<(Seq<char>, Seq<char>, u32)>::empty());
    }
    while i < matches.len()
        invariant
            0 <= i <= matches@.len(),
            references_of(matches@, names@) == out@.map_values(
                |e: ExtractedReference| (e.target_name@, e.edge_type@, e.line),
            ) + references_of(matches@.skip(i as int), names@),
        decreases matches@.len() - i,
    {
        let m = &matches[i];
        let mut target = String::new();
        let mut edge = String::new();
        let mut line: u32 = 0;
        let mut j: usize = 0;
        proof {
            assert(m.captures@.skip(0) =~= m.captures@);
            assert((target@, edge@, line) == ref_scan_init());
        }
        while j < m.captures.len()
            invariant
                0 <= j <= m.captures@.len(),
                ref_scan(m.captures@, names@, ref_scan_init()) == ref_scan(
                    m.captures@.skip(j as int),
                    names@,
                    (target@, edge@, line),
                ),
            decreases m.captures@.len() - j,
        {
            let c = &m.captures[j];
            proof {
                assert(m.captures@.skip(j as int)[0] == m.captures@[j as int]);
                assert(m.captures@.skip(j as int).skip(1) =~= m.captures@.skip(j as int + 1));
            }
            let nm: &str = if c.index < names.len() {
                names[c.index].as_str()
            } else {
                ""
            };
            proof {
                reveal_strlit("");
                assert(nm@ == cap_name(names@, c.index as int));
            }
            if str_eq(nm, "call_target") || str_eq(nm, "import_target") || str_eq(
                nm,
                "impl_target",
            ) || str_eq(nm, "import_module") {
                if str_eq(nm, "import_module") && target.unicode_len() > 0 {
                } else {
                    target = c.text.clone();
                    line = row_to_line(c.start_row);
                }
            } else if str_eq(nm, "calls") {
                edge = "calls".to_owned();
            } else if str_eq(nm, "imports") {
                edge = "imports".to_owned();
            } else if str_eq(nm, "implements") {
                edge = "implements".to_owned();
            }
            j = j + 1;
        }
        proof {
            assert(m.captures@.skip(m.captures@.len() as int) =~= Seq::<RawCapture>::empty());
            assert(matches@.skip(i as int)[0] == matches@[i as int]);
            assert(matches@.skip(i as int).skip(1) =~= matches@.skip(i as int + 1));
        }
        if target.unicode_len() > 0 && edge.unicode_len() > 0 {
            let no_dq = trim_char(target.as_str(), '"');
            let cleaned = trim_char(no_dq.as_str(), '\'');
            let re = ExtractedReference { target_name: cleaned, edge_type: edge, line };
            out.push(re);
            proof {
                assert(out@.map_values(
                    |e: ExtractedReference| (e.target_name@, e.edge_type@, e.line),
                ) =~= out@.drop_last().map_values(
                    |e: ExtractedReference| (e.target_name@, e.edge_type@, e.line),
                ).push((out@.last().target_name@, out@.last().edge_type@, out@.last().line)));
            }
        }
        i = i + 1;
    }
    proof {
        assert(matches@.skip(matches@.len() as int) =~= Seq::<RawMatch>::empty());
    }
    out
}

/// The outcome of running a tree query over a source text: the query's
/// capture-name table and its matches, or nothing where the grammar
/// machinery rejects the source or the query. With the grammar fixed by
/// the language name, the outcome is a function of the query text and the
/// source alone, so it carries a name; nothing else is assumed of it.
pub uninterp spec fn ts_query_outcome(
    lang: Seq<char>,
    query_src: Seq<char>,
    source: Seq<char>,
) -> Option<(Seq<String>, Seq<RawMatch>)>;

/// Relies on the tree_sitter_rust grammar through the parse and query
/// wrappers above: for this grammar the outcome is determined by the
/// query text and the source alone.
#[verifier::external_body]
pub(crate) fn ts_outcome_rust(query_source: &str, source: &str) -> (r: Option<
    (Vec<String>, Vec<RawMatch>),
>)
    ensures
        match r {
            Some(p) => ts_query_outcome("rust"@, query_source@, source@) == Some((p.0@, p.1@)),
            None => ts_query_outcome("rust"@, query_source@, source@) is None,
        },
{
    let language = ts_language_rust();
    let tree = ts_parse(&language, source)?;
    let query = ts_query_new(&language, query_source)?;
    Some((ts_query_capture_names(&query), ts_query_matches(&query, &tree, source)))
}

/// Relies on the tree_sitter_python grammar, as the rust one above.
#[verifier::external_body]
pub(crate) fn ts_outcome_python(query_source: &str, source: &str) -> (r: Option<
    (Vec<String>, Vec<RawMatch>),
>)
    ensures
        match r {
            Some(p) => ts_query_outcome("python"@, query_source@, source@) == Some((p.0@, p.1@)),
            None => ts_query_outcome("python"@, query_source@, source@) is None,
        },
{
    let language = ts_language_python();
    let tree = ts_parse(&language, source)?;
    let query = ts_query_new(&language, query_source)?;
    Some((ts_query_capture_names(&query), ts_query_matches(&query, &tree, source)))
}

/// Relies on the tree_sitter_typescript grammar, as the rust one above.
#[verifier::external_body]
pub(crate) fn ts_outcome_typescript(query_source: &str, source: &str) -> (r: Option<
    (Vec<String>, Vec<RawMatch>),
>)
    ensures
        match r {
            Some(p) => ts_query_outcome("typescript"@, query_source@, source@) == Some(
                (p.0@, p.1@),
            ),
            None => ts_query_outcome("typescript"@, query_source@, source@) is None,
        },
{
    let language = ts_language_typescript();
    let tree = ts_parse(&language, source)?;
    let query = ts_query_new(&language, query_source)?;
    Some((ts_query_capture_names(&query), ts_query_matches(&query, &tree, source)))
}

/// Relies on the tree_sitter_javascript grammar, as the rust one above.
#[verifier::external_body]
pub(crate) fn ts_outcome_javascript(query_source: &str, source: &str) -> (r: Option<
    (Vec<String>, Vec<RawMatch>),
>)
    ensures
        match r {
            Some(p) => ts_query_outcome("javascript"@, query_source@, source@) == Some(
                (p.0@, p.1@),
            ),
            None => ts_query_outcome("javascript"@, query_source@, source@) is None,
        },
{
    let language = ts_language_javascript();
    let tree = ts_parse(&language, source)?;
    let query = ts_query_new(&language, query_source)?;
    Some((ts_query_capture_names(&query), ts_query_matches(&query, &tree, source)))
}

/// Relies on the tree_sitter_go grammar, as the rust one above.
#[verifier::external_body]
pub(crate) fn ts_outcome_go(query_source: &str, source: &str) -> (r: Option<
    (Vec<String>, Vec<RawMatch>),
>)
    ensures
        match r {
            Some(p) => ts_query_outcome("go"@, query_source@, source@) == Some((p.0@, p.1@)),
            None => ts_query_outcome("go"@, query_source@, source@) is None,
        },
{
    let language = ts_language_go();
    let tree = ts_parse(&language, source)?;
    let query = ts_query_new(&language, query_source)?;
    Some((ts_query_capture_names(&query), ts_query_matches(&query, &tree, source)))
}

/// Relies on the tree_sitter_java grammar, as the rust one above.
#[verifier::external_body]
pub(crate) fn ts_outcome_java(query_source: &str, source: &str) -> (r: Option<
    (Vec<String>, Vec<RawMatch>),
>)
    ensures
        match r {
            Some(p) => ts_query_outcome("java"@, query_source@, source@) == Some((p.0@, p.1@)),
            None => ts_query_outcome("java"@, query_source@, source@) is None,
        },
{
    let language = ts_language_java();
    let tree = ts_parse(&language, source)?;
    let query = ts_query_new(&language, query_source)?;
    Some((ts_query_capture_names(&query), ts_query_matches(&query, &tree, source)))
}

/// Relies on the tree_sitter_c grammar, as the rust one above.
#[verifier::external_body]
pub(crate) fn ts_outcome_c(query_source: &str, source: &str) -> (r: Option<
    (Vec<String>, Vec<RawMatch>),
>)
    ensures
        match r {
            Some(p) => ts_query_outcome("c"@, query_source@, source@) == Some((p.0@, p.1@)),
            None => ts_query_outcome("c"@, query_source@, source@) is None,
        },
{
    let language = ts_language_c();
    let tree = ts_parse(&language, source)?;
    let query = ts_query_new(&language, query_source)?;
    Some((ts_query_capture_names(&query), ts_query_matches(&query, &tree, source)))
}

/// Relies on the tree_sitter_cpp grammar, as the rust one above.
#[verifier::external_body]
pub(crate) fn ts_outcome_cpp(query_source: &str, source: &str) -> (r: Option<
    (Vec<String>, Vec<RawMatch>),
>)
    ensures
        match r {
            Some(p) => ts_query_outcome("cpp"@, query_source@, source@) == Some((p.0@, p.1@)),
            None => ts_query_outcome("cpp"@, query_source@, source@) is None,
        },
{
    let language = ts_language_cpp();
    let tree = ts_parse(&language, source)?;
    let query = ts_query_new(&language, query_source)?;
    Some((ts_query_capture_names(&query), ts_query_matches(&query, &tree, source)))
}

/// Relies on the tree_sitter_kotlin_ng grammar, as the rust one above.
#[verifier::external_body]
pub(crate) fn ts_outcome_kotlin(query_source: &str, source: &str) -> (r: Option<
    (Vec<String>, Vec<RawMatch>),
>)
    ensures
        match r {
            Some(p) => ts_query_outcome("kotlin"@, query_source@, source@) == Some((p.0@, p.1@)),
            None => ts_query_outcome("kotlin"@, query_source@, source@) is None,
        },
{
    let language = ts_language_kotlin();
    let tree = ts_parse(&language, source)?;
    let query = ts_query_new(&language, query_source)?;
    Some((ts_query_capture_names(&query), ts_query_matches(&query, &tree, source)))
}

/// Run a query on a supported language's grammar.
fn ts_outcome(lang: &str, query_source: &str, source: &str) -> (r: Option<
    (Vec<String>, Vec<RawMatch>),
>)
    requires
        supported_lang(lang@),
    ensures
        match r {
            Some(p) => ts_query_outcome(lang@, query_source@, source@) == Some((p.0@, p.1@)),
            None => ts_query_outcome(lang@, query_source@, source@) is None,
        },
{
    if str_eq(lang, "rust") {
        ts_outcome_rust(query_source, source)
    } else if str_eq(lang, "python") {
        ts_outcome_python(query_source, source)
    } else if str_eq(lang, "typescript") {
        ts_outcome_typescript(query_source, source)
    } else if str_eq(lang, "javascript") {
        ts_outcome_javascript(query_source, source)
    } else if str_eq(lang, "go") {
        ts_outcome_go(query_source, source)
    } else if str_eq(lang, "java") {
        ts_outcome_java(query_source, source)
    } else if str_eq(lang, "c") {
        ts_outcome_c(query_source, source)
    } else if str_eq(lang, "cpp") {
        ts_outcome_cpp(query_source, source)
    } else {
        proof {
            assert(lang@ == "kotlin"@);
        }
        ts_outcome_kotlin(query_source, source)
    }
}

/// The symbols the language's symbol query yields for a source: `None`
/// where the language is unsupported or the grammar machinery fails.
pub open spec fn symbol_outcome(lang: Seq<char>, source: Seq<char>) -> Option<
    Seq<(Seq<char>, Seq<char>, u32, u32, Seq<char>)>,
> {
    if supported_lang(lang) {
        match sym_query_of(lang) {
            Some(q) => match ts_query_outcome(lang, q, source) {
                Some(o) => Some(symbols_of(o.1, o.0)),
                None => None,
            },
            None => None,
        }
    } else {
        None
    }
}

/// The references the language's reference query yields for a source:
/// `None` where the language is unsupported or the grammar machinery
/// fails.
pub open spec fn reference_outcome(lang: Seq<char>, source: Seq<char>) -> Option<
    Seq<(Seq<char>, Seq<char>, u32)>,
> {
    if supported_lang(lang) {
        match ref_query_of(lang) {
            Some(q) => match ts_query_outcome(lang, q, source) {
                Some(o) => Some(references_of(o.1, o.0)),
                None => None,
            },
            None => None,
        }
    } else {
        None
    }
}

proof fn lemma_symbols_of_nonempty(ms: Seq<RawMatch>, names: Seq<String>)
    ensures
        forall|k: int|
            0 <= k < symbols_of(ms, names).len() ==> (#[trigger] symbols_of(ms, names)[k]).0.len()
                > 0 && symbols_of(ms, names)[k].1.len() > 0,
    decreases ms.len(),
{
    if ms.len() > 0 {
        lemma_symbols_of_nonempty(ms.skip(1), names);
        assert forall|k: int|
            0 <= k < symbols_of(ms, names).len() implies (#[trigger] symbols_of(
            ms,
            names,
        )[k]).0.len() > 0 && symbols_of(ms, names)[k].1.len() > 0 by {
            match match_symbol(ms[0], names) {
                Some(s) => {
                    if k > 0 {
                        assert(symbols_of(ms, names)[k] == symbols_of(ms.skip(1), names)[k - 1]);
                    }
                },
                None => {
                    assert(symbols_of(ms, names)[k] == symbols_of(ms.skip(1), names)[k]);
                },
            }
        }
    }
}

proof fn lemma_references_of_typed(ms: Seq<RawMatch>, names: Seq<String>)
    ensures
        forall|k: int|
            0 <= k < references_of(ms, names).len() ==> (#[trigger] references_of(
                ms,
                names,
            )[k]).1.len() > 0,
    decreases ms.len(),
{
    if ms.len() > 0 {
        lemma_references_of_typed(ms.skip(1), names);
        assert forall|k: int|
            0 <= k < references_of(ms, names).len() implies (#[trigger] references_of(
            ms,
            names,
        )[k]).1.len() > 0 by {
            match match_reference(ms[0], names) {
                Some(s) => {
                    if k > 0 {
                        assert(references_of(ms, names)[k] == references_of(
                            ms.skip(1),
                            names,
                        )[k - 1]);
                    }
                },
                None => {
                    assert(references_of(ms, names)[k] == references_of(ms.skip(1), names)[k]);
                },
            }
        }
    }
}

/// Extract the symbols of a source file via the language's symbol query.
///
/// Fails exactly where the language is unsupported or the grammar
/// machinery yields no outcome; otherwise the result is the outcome
/// interpreted by [`symbols_from_matches`], so every symbol carries a
/// non-empty name and category.
pub fn extract_symbols(source: &str, lang: &str) -> (r: Result<Vec<ExtractedSymbol>, String>)
    ensures
        match (&r, symbol_outcome(lang@, source@)) {
            (Ok(v), Some(ss)) => v@.len() == ss.len() && forall|k: int|
                0 <= k < v@.len() ==> (#[trigger] v@[k]).name@ == ss[k].0 && v@[k].symbol_type@
                    == ss[k].1 && v@[k].start_line == ss[k].2 && v@[k].end_line == ss[k].3
                    && v@[k].content@ == ss[k].4,
            (Err(_), None) => true,
            _ => false,
        },
        match &r {
            Ok(v) => forall|k: int|
                0 <= k < v@.len() ==> (#[trigger] v@[k]).name@.len() > 0
                    && v@[k].symbol_type@.len() > 0,
            Err(_) => true,
        },
{
    let entry = match get_language_entry(lang) {
        Some(e) => e,
        None => {
            let mut msg = "Unsupported language: ".to_owned();
            msg.append(lang);
            return Err(msg);
        },
    };
    match ts_outcome(lang, entry.query_source, source) {
        Some(p) => {
            let (names, matches) = p;
            let v = symbols_from_matches(&matches, &names);
            proof {
                lemma_symbols_of_nonempty(matches@, names@);
            }
            Ok(v)
        },
        None => {
            let mut msg = "tree query failed for ".to_owned();
            msg.append(lang);
            Err(msg)
        },
    }
}

/// Extract the references of a source file via the language's reference
/// query.
///
/// Fails exactly where the language is unsupported or the grammar
/// machinery yields no outcome; otherwise the result is the outcome
/// interpreted by [`references_from_matches`], so every reference carries
/// a non-empty edge type.
pub fn extract_references(source: &str, lang: &str) -> (r: Result<
    Vec<ExtractedReference>,
    String,
>)
    ensures
        match (&r, reference_outcome(lang@, source@)) {
            (Ok(v), Some(rs)) => v@.len() == rs.len() && forall|k: int|
                0 <= k < v@.len() ==> (#[trigger] v@[k]).target_name@ == rs[k].0
                    && v@[k].edge_type@ == rs[k].1 && v@[k].line == rs[k].2,
            (Err(_), None) => true,
            _ => false,
        },
        match &r {
            Ok(v) => forall|k: int|
                0 <= k < v@.len() ==> (#[trigger] v@[k]).edge_type@.len() > 0,
            Err(_) => true,
        },
{
    let ref_query_src = match crate::languages::get_ref_query_source(lang) {
        Some(q) => q,
        None => {
            let mut msg = "Unsupported language: ".to_owned();
            msg.append(lang);
            return Err(msg);
        },
    };
    match ts_outcome(lang, ref_query_src, source) {
        Some(p) => {
            let (names, matches) = p;
            let v = references_from_matches(&matches, &names);
            proof {
                lemma_references_of_typed(matches@, names@);
                assert forall|k: int|
                    0 <= k < v@.len() implies (#[trigger] v@[k]).edge_type@.len() > 0 by {
                    assert(v@[k].target_name@ == references_of(matches@, names@)[k].0);
                }
            }
            Ok(v)
        },
        None => {
            let mut msg = "tree query failed for ".to_owned();
            msg.append(lang);
            Err(msg)
        },
    }
}

} // verus!
