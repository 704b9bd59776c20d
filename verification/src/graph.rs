//! The symbol graph: a per-repository symbol index, import-guided name
//! resolution, containing-symbol lookup, and edge construction.

use vstd::prelude::*;
use vstd::string::StrSliceExecFns;
use crate::ids::{edge_id, edge_id_of};
use crate::extract::ExtractedReference;
use crate::text::{
    lemma_filter_push,
    lemma_filter_none,
    after_last,
    after_last_char,
    after_last_dc,
    after_last_double_colon,
    contains_char,
    contains_double_colon,
    has_char,
    has_double_colon,
    str_eq,
    trim_char,
    trimmed,
};

verus! {

/// A symbol's name, category and line span, as kept in the symbol index.
pub struct SymbolInfo {
    pub name: String,
    pub symbol_type: String,
    pub start_line: u32,
    pub end_line: u32,
}

/// The symbols of one file.
pub struct FileSymbols {
    pub file: String,
    pub symbols: Vec<SymbolInfo>,
}

/// A per-repository map from file path to its symbols, kept as an
/// association list with distinct file keys.
pub struct SymbolIndex {
    pub files: Vec<FileSymbols>,
}

/// Well-formedness of a symbol index: file keys are distinct.
pub open spec fn index_wf(idx: SymbolIndex) -> bool {
    forall|i: int, j: int|
        0 <= i < j < idx.files@.len() ==> (#[trigger] idx.files@[i]).file@ != (
        #[trigger] idx.files@[j]).file@
}

/// Whether the file bucket at position `i` holds a symbol named `name`.
pub open spec fn owns(idx: SymbolIndex, i: int, name: Seq<char>) -> bool {
    0 <= i < idx.files@.len() && exists|j: int|
        0 <= j < idx.files@[i].symbols@.len() && (#[trigger] idx.files@[i].symbols@[j]).name@
            == name
}

/// Whether exactly one file of the index holds a symbol named `name`.
pub open spec fn has_unique_owner(idx: SymbolIndex, name: Seq<char>) -> bool {
    exists|i: int| #[trigger] owns(idx, i, name) && forall|j: int| owns(idx, j, name) ==> j == i
}

/// The file of the unique owner of `name` (meaningful only under
/// [`has_unique_owner`]).
pub open spec fn the_owner(idx: SymbolIndex, name: Seq<char>) -> Seq<char> {
    idx.files@[choose|i: int| owns(idx, i, name)].file@
}

/// The file owning `name` where exactly one does, else empty.
pub open spec fn owner_or_empty(idx: SymbolIndex, name: Seq<char>) -> Seq<char> {
    if has_unique_owner(idx, name) {
        the_owner(idx, name)
    } else {
        Seq::<char>::empty()
    }
}

/// Whether a file bucket holds a symbol named `name`; the executable side
/// of the inner quantifier of [`owns`].
fn bucket_has_name(symbols: &Vec<SymbolInfo>, name: &str) -> (r: bool)
    ensures
        r == exists|j: int|
            0 <= j < symbols@.len() && (#[trigger] symbols@[j]).name@ == name@,
{
    let mut j: usize = 0;
    while j < symbols.len()
        invariant
            0 <= j <= symbols@.len(),
            forall|k: int| 0 <= k < j ==> (#[trigger] symbols@[k]).name@ != name@,
        decreases symbols@.len() - j,
    {
        if str_eq(symbols[j].name.as_str(), name) {
            return true;
        }
        j = j + 1;
    }
    false
}

/// Find the file owning a symbol name. Yields the owning file where
/// exactly one file holds the name, and the empty string where none does
/// or where two or more do (an ambiguous name resolves nowhere).
pub fn find_symbol_file(name: &str, symbol_index: &SymbolIndex) -> (r: String)
    ensures
        r@ == owner_or_empty(*symbol_index, name@),
{
    let ghost idx = *symbol_index;
    let mut found: usize = 0;
    let mut count: usize = 0;
    let mut i: usize = 0;
    while i < symbol_index.files.len()
        invariant
            0 <= i <= idx.files@.len(),
            idx == *symbol_index,
            count <= i,
            count <= 1,
            count == 0 ==> forall|k: int| 0 <= k < i ==> !owns(idx, k, name@),
            count == 1 ==> owns(idx, found as int, name@) && (found as int) < i && forall|k: int|
                0 <= k < i && k != found as int ==> !owns(idx, k, name@),
        decreases idx.files@.len() - i,
    {
        if bucket_has_name(&symbol_index.files[i].symbols, name) {
            proof {
                assert(owns(idx, i as int, name@));
            }
            if count == 0 {
                found = i;
            }
            count = count + 1;
            if count > 1 {
                proof {
                    assert(owns(idx, found as int, name@) && owns(idx, i as int, name@) && found
                        as int != i as int);
                    assert(!has_unique_owner(idx, name@));
                }
                return String::new();
            }
        }
        i = i + 1;
    }
    if count == 1 {
        proof {
            assert(has_unique_owner(idx, name@));
            let w = choose|k: int| owns(idx, k, name@);
            assert(w == found as int);
        }
        symbol_index.files[found].file.clone()
    } else {
        proof {
            assert(forall|k: int| !owns(idx, k, name@));
            if has_unique_owner(idx, name@) {
                let w = choose|k: int|
                    #[trigger] owns(idx, k, name@) && forall|j: int| owns(idx, j, name@) ==> j
                        == k;
                assert(owns(idx, w, name@));
                assert(false);
            }
        }
        String::new()
    }
}

/// The line span of a symbol, zero where the recorded span is inverted.
pub open spec fn span_of(s: SymbolInfo) -> int {
    if s.start_line <= s.end_line {
        s.end_line - s.start_line
    } else {
        0
    }
}

/// Whether the symbol at position `i` contains `line` in its inclusive
/// span.
pub open spec fn covers(syms: Seq<SymbolInfo>, i: int, line: u32) -> bool {
    0 <= i < syms.len() && syms[i].start_line <= line <= syms[i].end_line
}

/// Whether position `i` is the match [`find_containing_symbol`] reports:
/// it covers the line with a minimal span, and earlier covering positions
/// have strictly larger spans.
pub open spec fn first_minimal_cover(syms: Seq<SymbolInfo>, i: int, line: u32) -> bool {
    covers(syms, i, line) && (forall|j: int| #[trigger] covers(syms, j, line) ==> span_of(
        syms[i],
    ) <= span_of(syms[j])) && (forall|j: int|
        0 <= j < i && #[trigger] covers(syms, j, line) ==> span_of(syms[j]) > span_of(syms[i]))
}

/// The name of the innermost symbol containing `line`: smallest span wins,
/// earliest position breaks ties; empty where no symbol contains the line.
pub open spec fn containing_of(syms: Seq<SymbolInfo>, line: u32) -> Seq<char> {
    if exists|i: int| covers(syms, i, line) {
        syms[choose|i: int| first_minimal_cover(syms, i, line)].name@
    } else {
        Seq::<char>::empty()
    }
}

/// Find the innermost symbol whose span contains a line: the smallest
/// span wins and the earliest such symbol breaks ties; empty where none
/// contains it.
pub fn find_containing_symbol(symbols: &Vec<SymbolInfo>, line: u32) -> (r: String)
    ensures
        r@ == containing_of(symbols@, line),
{
    let ghost sv = symbols@;
    let mut best: usize = 0;
    let mut have = false;
    let mut i: usize = 0;
    while i < symbols.len()
        invariant
            0 <= i <= sv.len(),
            sv == symbols@,
            !have ==> forall|k: int| 0 <= k < i ==> !covers(sv, k, line),
            have ==> (best as int) < i && covers(sv, best as int, line) && (forall|j: int|
                0 <= j < i && #[trigger] covers(sv, j, line) ==> span_of(sv[best as int])
                    <= span_of(sv[j])) && (forall|j: int|
                0 <= j < best as int && #[trigger] covers(sv, j, line) ==> span_of(sv[j])
                    > span_of(sv[best as int])),
        decreases sv.len() - i,
    {
        let s = &symbols[i];
        if s.start_line <= line && line <= s.end_line {
            proof {
                assert(covers(sv, i as int, line));
            }
            if !have {
                best = i;
                have = true;
            } else {
                let cur = &symbols[best];
                let cur_span: u32 = if cur.start_line <= cur.end_line {
                    cur.end_line - cur.start_line
                } else {
                    0
                };
                let new_span: u32 = if s.start_line <= s.end_line {
                    s.end_line - s.start_line
                } else {
                    0
                };
                if new_span < cur_span {
                    best = i;
                }
            }
        }
        i = i + 1;
    }
    if have {
        proof {
            assert(first_minimal_cover(sv, best as int, line));
            let w = choose|k: int| first_minimal_cover(sv, k, line);
            assert(covers(sv, w, line));
            if w < best as int {
                assert(span_of(sv[w]) > span_of(sv[best as int]));
                assert(span_of(sv[w]) <= span_of(sv[best as int]));
                assert(false);
            }
            if w > best as int {
                assert(span_of(sv[best as int]) > span_of(sv[w]));
                assert(span_of(sv[best as int]) <= span_of(sv[w]));
                assert(false);
            }
        }
        symbols[best].name.clone()
    } else {
        proof {
            if exists|k: int| covers(sv, k, line) {
                let k = choose|k: int| covers(sv, k, line);
                assert(!covers(sv, k, line));
                assert(false);
            }
        }
        String::new()
    }
}

} // verus!

verus! {

/// The key under which an import target is filed: the part after the last
/// `"::"` where it has one, else the part after the last `'/'` with
/// surrounding quotes stripped.
pub open spec fn import_short_of(t: Seq<char>) -> Seq<char> {
    if has_double_colon(t) {
        after_last_dc(t)
    } else {
        trimmed(trimmed(after_last(t, '/'), '"'), '\'')
    }
}

/// The import map a file's references induce, as `(short name, full
/// target)` pairs in reference order; later pairs shadow earlier ones.
pub open spec fn import_pairs(refs: Seq<ExtractedReference>) -> Seq<(Seq<char>, Seq<char>)>
    decreases refs.len(),
{
    if refs.len() == 0 {
        Seq::empty()
    } else {
        let rest = import_pairs(refs.skip(1));
        if refs[0].edge_type@ == "imports"@ {
            seq![(import_short_of(refs[0].target_name@), refs[0].target_name@)] + rest
        } else {
            rest
        }
    }
}

/// Compute the short name an import target is filed under.
pub fn import_short(target: &str) -> (r: String)
    ensures
        r@ == import_short_of(target@),
{
    if contains_double_colon(target) {
        after_last_double_colon(target)
    } else {
        let seg = after_last_char(target, '/');
        let no_dq = trim_char(seg.as_str(), '"');
        trim_char(no_dq.as_str(), '\'')
    }
}

/// Build a file's import map from its references: each `imports` reference
/// is filed under its short name; later entries shadow earlier ones.
pub fn extract_import_map(refs: &Vec<ExtractedReference>) -> (r: Vec<(String, String)>)
    ensures
        r@.map_values(|p: (String, String)| (p.0@, p.1@)) == import_pairs(refs@),
{
    let mut out: Vec<(String, String)> = Vec::new();
    let mut i: usize = 0;
    proof {
        assert(refs@.skip(0) =~= refs@);
        assert(out@.map_values(|p: (String, String)| (p.0@, p.1@)) =~= Seq::<(
            Seq<char>,
            Seq<char>,
        )>::empty());
    }
    while i < refs.len()
        invariant
            0 <= i <= refs@.len(),
            import_pairs(refs@) == out@.map_values(|p: (String, String)| (p.0@, p.1@))
                + import_pairs(refs@.skip(i as int)),
        decreases refs@.len() - i,
    {
        proof {
            assert(refs@.skip(i as int)[0] == refs@[i as int]);
            assert(refs@.skip(i as int).skip(1) =~= refs@.skip(i as int + 1));
        }
        let re = &refs[i];
        if str_eq(re.edge_type.as_str(), "imports") {
            let short = import_short(re.target_name.as_str());
            let ghost out_before = out@;
            out.push((short, re.target_name.clone()));
            proof {
                assert(out@ == out_before.push((out@.last().0, out@.last().1)));
                assert(out@.map_values(|p: (String, String)| (p.0@, p.1@)) =~= out_before.map_values(
                    |p: (String, String)| (p.0@, p.1@),
                ).push((import_short_of(re.target_name@), re.target_name@)));
            }
        }
        i = i + 1;
    }
    proof {
        assert(refs@.skip(refs@.len() as int) =~= Seq::<ExtractedReference>::empty());
    }
    out
}

/// The full target the import map holds for a short name: the latest pair
/// with that key, as a map built by repeated insertion would hold.
pub open spec fn last_import(pairs: Seq<(Seq<char>, Seq<char>)>, name: Seq<char>) -> Option<
    Seq<char>,
>
    decreases pairs.len(),
{
    if pairs.len() == 0 {
        None
    } else if pairs.last().0 == name {
        Some(pairs.last().1)
    } else {
        last_import(pairs.drop_last(), name)
    }
}

/// Look up a short name in an import map: the latest entry wins.
pub fn import_lookup(pairs: &Vec<(String, String)>, name: &str) -> (r: Option<String>)
    ensures
        match r {
            Some(v) => last_import(
                pairs@.map_values(|p: (String, String)| (p.0@, p.1@)),
                name@,
            ) == Some(v@),
            None => last_import(pairs@.map_values(|p: (String, String)| (p.0@, p.1@)), name@)
                is None,
        },
{
    let ghost pv = pairs@.map_values(|p: (String, String)| (p.0@, p.1@));
    let mut i: usize = pairs.len();
    proof {
        assert(pv.take(pairs@.len() as int) =~= pv);
    }
    while i > 0
        invariant
            0 <= i <= pairs@.len(),
            pv == pairs@.map_values(|p: (String, String)| (p.0@, p.1@)),
            last_import(pv, name@) == last_import(pv.take(i as int), name@),
        decreases i,
    {
        proof {
            assert(pv.take(i as int).last() == pv[i as int - 1]);
            assert(pv.take(i as int).drop_last() =~= pv.take(i as int - 1));
        }
        if str_eq(pairs[i - 1].0.as_str(), name) {
            return Some(pairs[i - 1].1.clone());
        }
        i = i - 1;
    }
    proof {
        assert(pv.take(0) =~= Seq::<(Seq<char>, Seq<char>)>::empty());
    }
    None
}

/// Whether the bucket for `file` holds a symbol named `name`.
pub open spec fn same_file_has(idx: SymbolIndex, file: Seq<char>, name: Seq<char>) -> bool {
    exists|i: int|
        0 <= i < idx.files@.len() && (#[trigger] idx.files@[i]).file@ == file && exists|j: int|
            0 <= j < idx.files@[i].symbols@.len() && (#[trigger] idx.files@[i].symbols@[j]).name@
                == name
}

/// Find the bucket of a file in the index.
fn find_file_bucket(idx: &SymbolIndex, file: &str) -> (r: Option<usize>)
    ensures
        match r {
            Some(i) => i < idx.files@.len() && idx.files@[i as int].file@ == file@,
            None => forall|i: int|
                0 <= i < idx.files@.len() ==> (#[trigger] idx.files@[i]).file@ != file@,
        },
{
    let mut i: usize = 0;
    while i < idx.files.len()
        invariant
            0 <= i <= idx.files@.len(),
            forall|k: int| 0 <= k < i ==> (#[trigger] idx.files@[k]).file@ != file@,
        decreases idx.files@.len() - i,
    {
        if str_eq(idx.files[i].file.as_str(), file) {
            return Some(i);
        }
        i = i + 1;
    }
    None
}

/// The `(target_qualified, target_file)` pair a reference resolves to,
/// by the first matching rule: already-qualified spellings keep their
/// spelling and look up their short name's unique owner; import-guided
/// resolution substitutes the mapped target; a same-file symbol resolves
/// to the current file; a globally unique owner resolves to its file;
/// anything else resolves to nothing.
pub open spec fn resolved(
    target: Seq<char>,
    edge_type: Seq<char>,
    current_file: Seq<char>,
    pairs: Seq<(Seq<char>, Seq<char>)>,
    idx: SymbolIndex,
) -> (Seq<char>, Seq<char>) {
    if has_double_colon(target) || (edge_type == "imports"@ && has_char(target, '/')) {
        let short = if has_double_colon(target) {
            after_last_dc(target)
        } else {
            after_last(target, '/')
        };
        (target, owner_or_empty(idx, short))
    } else if last_import(pairs, target) is Some {
        (last_import(pairs, target).unwrap(), owner_or_empty(idx, target))
    } else if same_file_has(idx, current_file, target) {
        (target, current_file)
    } else if owner_or_empty(idx, target).len() > 0 {
        (target, owner_or_empty(idx, target))
    } else {
        (Seq::<char>::empty(), Seq::<char>::empty())
    }
}

/// Resolve a reference to a qualified name and an owning file, trying in
/// turn: an already-qualified spelling, the file's import map, a same-file
/// symbol, and a globally unique owner.
pub fn resolve_reference(
    target_name: &str,
    edge_type: &str,
    current_file: &str,
    import_map: &Vec<(String, String)>,
    symbol_index: &SymbolIndex,
) -> (r: (String, String))
    requires
        index_wf(*symbol_index),
    ensures
        (r.0@, r.1@) == resolved(
            target_name@,
            edge_type@,
            current_file@,
            import_map@.map_values(|p: (String, String)| (p.0@, p.1@)),
            *symbol_index,
        ),
{
    let qualified_syntax = contains_double_colon(target_name) || (str_eq(edge_type, "imports")
        && contains_char(target_name, '/'));
    if qualified_syntax {
        let short = if contains_double_colon(target_name) {
            after_last_double_colon(target_name)
        } else {
            after_last_char(target_name, '/')
        };
        let file = find_symbol_file(short.as_str(), symbol_index);
        return (target_name.to_owned(), file);
    }
    match import_lookup(import_map, target_name) {
        Some(qualified) => {
            let file = find_symbol_file(target_name, symbol_index);
            return (qualified, file);
        },
        None => {},
    }
    match find_file_bucket(symbol_index, current_file) {
        Some(i) => {
            if bucket_has_name(&symbol_index.files[i].symbols, target_name) {
                proof {
                    assert(same_file_has(*symbol_index, current_file@, target_name@));
                }
                return (target_name.to_owned(), current_file.to_owned());
            }
            proof {
                assert forall|k: int|
                    0 <= k < symbol_index.files@.len() && (#[trigger] symbol_index.files@[k]).file@
                        == current_file@ implies !(exists|j: int|
                    0 <= j < symbol_index.files@[k].symbols@.len() && (
                    #[trigger] symbol_index.files@[k].symbols@[j]).name@ == target_name@) by {
                    assert(k == i as int);
                }
            }
        },
        None => {},
    }
    let file = find_symbol_file(target_name, symbol_index);
    if file.unicode_len() > 0 {
        return (target_name.to_owned(), file);
    }
    proof {
        assert(""@ =~= Seq::<char>::empty()) by {
            reveal_strlit("");
        };
    }
    ("".to_owned(), "".to_owned())
}

} // verus!

verus! {

/// An edge row as persisted in the edges table.
pub struct EdgeRecord {
    pub id: String,
    pub repo_id: String,
    pub source_file: String,
    pub source_symbol: String,
    pub source_line: u32,
    pub target_name: String,
    pub target_qualified: String,
    pub target_file: String,
    pub edge_type: String,
}

/// An edge's identifier is the hash of its logical key.
pub open spec fn edge_wf(e: EdgeRecord) -> bool {
    e.id@ == edge_id_of(e.repo_id@, e.source_file@, e.source_line, e.target_name@, e.edge_type@)
}

/// Whether `r` is the edge row sequence for one file's references: one
/// edge per reference, each with its hashed identifier, its containing
/// symbol and its resolved target.
pub open spec fn file_edges_spec(
    r: Seq<EdgeRecord>,
    repo_id: Seq<char>,
    rel_path: Seq<char>,
    refs: Seq<ExtractedReference>,
    file_symbols: Seq<SymbolInfo>,
    pairs: Seq<(Seq<char>, Seq<char>)>,
    merged: SymbolIndex,
) -> bool {
    r.len() == refs.len() && forall|k: int|
        0 <= k < r.len() ==> {
            let re = refs[k];
            let res = resolved(re.target_name@, re.edge_type@, rel_path, pairs, merged);
            (#[trigger] r[k]).id@ == edge_id_of(
                repo_id,
                rel_path,
                re.line,
                re.target_name@,
                re.edge_type@,
            ) && r[k].repo_id@ == repo_id && r[k].source_file@ == rel_path
                && r[k].source_symbol@ == containing_of(file_symbols, re.line) && r[k].source_line
                == re.line && r[k].target_name@ == re.target_name@ && r[k].target_qualified@
                == res.0 && r[k].target_file@ == res.1 && r[k].edge_type@ == re.edge_type@
        }
}

/// The fields of an edge row.
pub open spec fn edge_view(e: EdgeRecord) -> (
    Seq<char>,
    Seq<char>,
    Seq<char>,
    Seq<char>,
    u32,
    Seq<char>,
    Seq<char>,
    Seq<char>,
    Seq<char>,
) {
    (
        e.id@,
        e.repo_id@,
        e.source_file@,
        e.source_symbol@,
        e.source_line,
        e.target_name@,
        e.target_qualified@,
        e.target_file@,
        e.edge_type@,
    )
}

/// Rebuilding the graph from unchanged inputs yields the same edge set:
/// any two edge sequences built for the same references, symbols, import
/// map and index agree row for row.
pub proof fn lemma_build_edges_deterministic(
    r1: Seq<EdgeRecord>,
    r2: Seq<EdgeRecord>,
    repo_id: Seq<char>,
    rel_path: Seq<char>,
    refs: Seq<ExtractedReference>,
    file_symbols: Seq<SymbolInfo>,
    pairs: Seq<(Seq<char>, Seq<char>)>,
    merged: SymbolIndex,
)
    requires
        file_edges_spec(r1, repo_id, rel_path, refs, file_symbols, pairs, merged),
        file_edges_spec(r2, repo_id, rel_path, refs, file_symbols, pairs, merged),
    ensures
        r1.len() == r2.len(),
        forall|k: int| 0 <= k < r1.len() ==> edge_view(#[trigger] r1[k]) == edge_view(r2[k]),
{
}

/// Build the edge rows for one file's references: each reference becomes
/// one edge, with its containing symbol and its resolved target.
pub fn build_file_edges(
    repo_id: &str,
    rel_path: &str,
    refs: &Vec<ExtractedReference>,
    file_symbols: &Vec<SymbolInfo>,
    import_map: &Vec<(String, String)>,
    merged: &SymbolIndex,
) -> (r: Vec<EdgeRecord>)
    requires
        index_wf(*merged),
    ensures
        file_edges_spec(
            r@,
            repo_id@,
            rel_path@,
            refs@,
            file_symbols@,
            import_map@.map_values(|p: (String, String)| (p.0@, p.1@)),
            *merged,
        ),
        forall|k: int| 0 <= k < r@.len() ==> edge_wf(#[trigger] r@[k]),
{
    let mut out: Vec<EdgeRecord> = Vec::new();
    let mut i: usize = 0;
    while i < refs.len()
        invariant
            0 <= i <= refs@.len(),
            index_wf(*merged),
            out@.len() == i,
            forall|k: int|
                0 <= k < i ==> {
                    let re = refs@[k];
                    let res = resolved(
                        re.target_name@,
                        re.edge_type@,
                        rel_path@,
                        import_map@.map_values(|p: (String, String)| (p.0@, p.1@)),
                        *merged,
                    );
                    (#[trigger] out@[k]).id@ == edge_id_of(
                        repo_id@,
                        rel_path@,
                        re.line,
                        re.target_name@,
                        re.edge_type@,
                    ) && out@[k].repo_id@ == repo_id@ && out@[k].source_file@ == rel_path@
                        && out@[k].source_symbol@ == containing_of(file_symbols@, re.line)
                        && out@[k].source_line == re.line && out@[k].target_name@
                        == re.target_name@ && out@[k].target_qualified@ == res.0
                        && out@[k].target_file@ == res.1 && out@[k].edge_type@ == re.edge_type@
                },
        decreases refs@.len() - i,
    {
        let re = &refs[i];
        let containing = find_containing_symbol(file_symbols, re.line);
        let (target_qualified, target_file) = resolve_reference(
            re.target_name.as_str(),
            re.edge_type.as_str(),
            rel_path,
            import_map,
            merged,
        );
        let e = EdgeRecord {
            id: edge_id(repo_id, rel_path, re.line, re.target_name.as_str(),
                re.edge_type.as_str()),
            repo_id: repo_id.to_owned(),
            source_file: rel_path.to_owned(),
            source_symbol: containing,
            source_line: re.line,
            target_name: re.target_name.clone(),
            target_qualified,
            target_file,
            edge_type: re.edge_type.clone(),
        };
        out.push(e);
        i = i + 1;
    }
    out
}

/// What a completed graph build reports.
pub struct GraphResult {
    pub edge_count: u64,
    pub head_commit: Option<String>,
}

/// The number of edges the graph build holds against each repository: 500
/// per store round-trip.
pub const EDGE_BATCH_SIZE: usize = 500;

/// Accumulates edge rows and releases them in batches, counting every row
/// released so the reported edge count equals the rows written.
pub struct EdgeBatcher {
    pub batch: Vec<EdgeRecord>,
    pub total: u64,
}

/// The number of edges a batcher has accepted: released rows plus rows
/// still pending.
pub open spec fn emitted(b: EdgeBatcher) -> int {
    b.total + b.batch@.len()
}

impl EdgeBatcher {
    /// A fresh batcher: nothing pending, nothing counted.
    pub fn new() -> (r: EdgeBatcher)
        ensures
            r.batch@.len() == 0,
            r.total == 0,
            emitted(r) == 0,
    {
        EdgeBatcher { batch: Vec::new(), total: 0 }
    }

    /// Accept one edge row.
    pub fn push(&mut self, e: EdgeRecord)
        ensures
            final(self).batch@ == old(self).batch@.push(e),
            final(self).total == old(self).total,
            emitted(*final(self)) == emitted(*old(self)) + 1,
    {
        self.batch.push(e);
    }

    /// Whether the pending batch has reached the release threshold.
    pub fn ready(&self) -> (r: bool)
        ensures
            r == (self.batch@.len() >= EDGE_BATCH_SIZE),
    {
        self.batch.len() >= EDGE_BATCH_SIZE
    }

    /// Release the pending batch, counting its rows into the total: the
    /// count accepted so far is unchanged, so after a final release the
    /// total equals every edge ever accepted.
    pub fn flush(&mut self) -> (r: Vec<EdgeRecord>)
        requires
            emitted(*old(self)) <= u64::MAX,
        ensures
            r@ == old(self).batch@,
            final(self).batch@.len() == 0,
            final(self).total == old(self).total + old(self).batch@.len(),
            emitted(*final(self)) == emitted(*old(self)),
    {
        let n = self.batch.len();
        self.total = self.total + n as u64;
        let mut released: Vec<EdgeRecord> = Vec::new();
        core::mem::swap(&mut released, &mut self.batch);
        released
    }
}

} // verus!

verus! {

/// A symbol row scanned from the chunks table.
pub struct MapEntry {
    pub file_path: String,
    pub symbol_name: String,
    pub symbol_type: String,
    pub start_line: u32,
    pub end_line: u32,
}

/// The symbol fields of a scanned chunk row.
pub open spec fn entry_info(e: MapEntry) -> (Seq<char>, Seq<char>, u32, u32) {
    (e.symbol_name@, e.symbol_type@, e.start_line, e.end_line)
}

/// The fields of an index symbol.
pub open spec fn sym_view(s: SymbolInfo) -> (Seq<char>, Seq<char>, u32, u32) {
    (s.name@, s.symbol_type@, s.start_line, s.end_line)
}

/// Whether the index has a bucket for `file`.
pub open spec fn has_file(idx: SymbolIndex, file: Seq<char>) -> bool {
    exists|i: int| 0 <= i < idx.files@.len() && (#[trigger] idx.files@[i]).file@ == file
}

proof fn lemma_filter_member<A>(s: Seq<A>, p: spec_fn(A) -> bool, j: int)
    requires
        0 <= j < s.filter(p).len(),
    ensures
        exists|m: int| 0 <= m < s.len() && s[m] == s.filter(p)[j],
    decreases s.len(),
{
    reveal(Seq::filter);
    if s.len() > 0 {
        let f = s.filter(p);
        let fd = s.drop_last().filter(p);
        if p(s.last()) && j == f.len() - 1 {
            assert(s[s.len() - 1] == f[j]);
        } else {
            assert(j < fd.len());
            lemma_filter_member(s.drop_last(), p, j);
            let m = choose|m: int| 0 <= m < s.drop_last().len() && s.drop_last()[m] == fd[j];
            assert(s[m] == f[j]);
        }
    }
}

/// Whether one of the first `upto` scanned rows names the file `f`.
pub open spec fn file_from_entries(es: Seq<MapEntry>, upto: int, f: Seq<char>) -> bool {
    exists|m: int| 0 <= m < upto && (#[trigger] es[m]).file_path@ == f
}

/// Add one scanned symbol row to the index: into its file's bucket, or
/// into a fresh bucket appended at the end.
pub fn index_push_entry(idx: &mut SymbolIndex, e: &MapEntry)
    requires
        index_wf(*old(idx)),
    ensures
        index_wf(*final(idx)),
        has_file(*final(idx), e.file_path@),
        final(idx).files@.len() == if has_file(*old(idx), e.file_path@) {
            old(idx).files@.len() as int
        } else {
            old(idx).files@.len() + 1int
        },
        forall|i: int|
            0 <= i < old(idx).files@.len() && (#[trigger] old(idx).files@[i]).file@
                != e.file_path@ ==> final(idx).files@[i] == old(idx).files@[i],
        forall|i: int|
            0 <= i < old(idx).files@.len() && (#[trigger] old(idx).files@[i]).file@
                == e.file_path@ ==> final(idx).files@[i].file@ == e.file_path@
                && final(idx).files@[i].symbols@.map_values(|s: SymbolInfo| sym_view(s))
                == old(idx).files@[i].symbols@.map_values(|s: SymbolInfo| sym_view(s)).push(entry_info(*e)),
        !has_file(*old(idx), e.file_path@) ==> final(idx).files@.last().file@ == e.file_path@
            && final(idx).files@.last().symbols@.map_values(|s: SymbolInfo| sym_view(s)) == seq![
            entry_info(*e),
        ] && final(idx).files@.drop_last() == old(idx).files@,
{
    let info = SymbolInfo {
        name: e.symbol_name.clone(),
        symbol_type: e.symbol_type.clone(),
        start_line: e.start_line,
        end_line: e.end_line,
    };
    let slot = find_file_bucket(idx, e.file_path.as_str());
    match slot {
        Some(i) => {
            let ghost before = idx.files@[i as int].symbols@;
            idx.files[i].symbols.push(info);
            proof {
                assert(idx.files@[i as int].file@ == e.file_path@);
                assert(has_file(*idx, e.file_path@));
                assert(idx.files@[i as int].symbols@ == before.push(info));
                assert(idx.files@[i as int].symbols@.map_values(|s: SymbolInfo| sym_view(s))
                    =~= before.map_values(|s: SymbolInfo| sym_view(s)).push(entry_info(*e)));
                assert forall|a: int|
                    0 <= a < old(idx).files@.len() && (#[trigger] old(idx).files@[a]).file@
                        == e.file_path@ implies a == i as int by {
                    if a != i as int {
                        assert(old(idx).files@[a].file@ != old(idx).files@[i as int].file@);
                    }
                }
            }
        },
        None => {
            let bucket = FileSymbols { file: e.file_path.clone(), symbols: vec![info] };
            proof {
                assert(bucket.symbols@ =~= seq![info]);
                assert(bucket.symbols@.map_values(|s: SymbolInfo| sym_view(s)) =~= seq![
                    entry_info(*e),
                ]);
            }
            idx.files.push(bucket);
            proof {
                assert(idx.files@.drop_last() =~= old(idx).files@);
                assert(idx.files@[idx.files@.len() - 1].file@ == e.file_path@);
                assert(has_file(*idx, e.file_path@));
            }
        },
    }
}

/// Build a symbol index from the chunks table's symbol rows: rows are
/// grouped by file, keeping row order within each file.
pub fn index_from_entries(entries: &Vec<MapEntry>) -> (r: SymbolIndex)
    ensures
        index_wf(r),
        forall|i: int|
            0 <= i < r.files@.len() ==> (#[trigger] r.files@[i]).symbols@.map_values(
                |s: SymbolInfo| sym_view(s),
            ) == entries@.filter(
                |e: MapEntry| e.file_path@ == r.files@[i].file@,
            ).map_values(|e: MapEntry| entry_info(e)),
        forall|k: int|
            0 <= k < entries@.len() ==> has_file(r, (#[trigger] entries@[k]).file_path@),
        forall|i: int|
            0 <= i < r.files@.len() ==> file_from_entries(
                entries@,
                entries@.len() as int,
                (#[trigger] r.files@[i]).file@,
            ),
{
    let mut idx = SymbolIndex { files: Vec::new() };
    let mut k: usize = 0;
    proof {
        assert(entries@.take(0) =~= Seq::<MapEntry>::empty());
    }
    while k < entries.len()
        invariant
            0 <= k <= entries@.len(),
            index_wf(idx),
            forall|i: int|
                0 <= i < idx.files@.len() ==> (#[trigger] idx.files@[i]).symbols@.map_values(
                    |s: SymbolInfo| sym_view(s),
                ) == entries@.take(k as int).filter(
                    |e: MapEntry| e.file_path@ == idx.files@[i].file@,
                ).map_values(|e: MapEntry| entry_info(e)),
            forall|m: int|
                0 <= m < k ==> has_file(idx, (#[trigger] entries@[m]).file_path@),
            forall|i: int|
                0 <= i < idx.files@.len() ==> file_from_entries(
                    entries@,
                    k as int,
                    (#[trigger] idx.files@[i]).file@,
                ),
        decreases entries@.len() - k,
    {
        let ghost idx_before = idx;
        let e = &entries[k];
        index_push_entry(&mut idx, e);
        proof {
            assert(entries@.take(k as int + 1) =~= entries@.take(k as int).push(entries@[k as int]));
            assert forall|i: int| 0 <= i < idx.files@.len() implies file_from_entries(
                entries@,
                k as int + 1,
                (#[trigger] idx.files@[i]).file@,
            ) by {
                if i < idx_before.files@.len() {
                    if idx_before.files@[i].file@ == e.file_path@ {
                        assert(entries@[k as int].file_path@ == idx.files@[i].file@);
                    } else {
                        assert(idx.files@[i] == idx_before.files@[i]);
                        assert(file_from_entries(entries@, k as int, idx_before.files@[i].file@));
                        let m0 = choose|m: int|
                            0 <= m < k && (#[trigger] entries@[m]).file_path@
                                == idx_before.files@[i].file@;
                        assert(entries@[m0].file_path@ == idx.files@[i].file@);
                    }
                } else {
                    assert(i == idx.files@.len() - 1);
                    assert(idx.files@[i] == idx.files@.last());
                    assert(entries@[k as int].file_path@ == idx.files@[i].file@);
                }
            }
            assert forall|i: int| 0 <= i < idx.files@.len() implies (
            #[trigger] idx.files@[i]).symbols@.map_values(|s: SymbolInfo| sym_view(s))
                == entries@.take(k as int + 1).filter(
                |e2: MapEntry| e2.file_path@ == idx.files@[i].file@,
            ).map_values(|e2: MapEntry| entry_info(e2)) by {
                let p = |e2: MapEntry| e2.file_path@ == idx.files@[i].file@;
                lemma_filter_push(entries@.take(k as int), p, entries@[k as int]);
                if i < idx_before.files@.len() {
                    if idx_before.files@[i].file@ == e.file_path@ {
                        assert(idx.files@[i].symbols@.map_values(|s: SymbolInfo| sym_view(s))
                            == idx_before.files@[i].symbols@.map_values(
                            |s: SymbolInfo| sym_view(s),
                        ).push(entry_info(*e)));
                        assert(idx.files@[i].file@ == e.file_path@);
                        assert(p(entries@[k as int]));
                        assert(entries@.take(k as int).filter(p).map_values(
                            |e2: MapEntry| entry_info(e2),
                        ) == idx_before.files@[i].symbols@.map_values(|s: SymbolInfo| sym_view(s)));
                        assert(entries@.take(k as int).filter(p).push(
                            entries@[k as int],
                        ).map_values(|e2: MapEntry| entry_info(e2)) =~= entries@.take(
                            k as int,
                        ).filter(p).map_values(|e2: MapEntry| entry_info(e2)).push(
                            entry_info(entries@[k as int]),
                        ));
                    } else {
                        assert(idx.files@[i] == idx_before.files@[i]);
                        assert(!p(entries@[k as int]));
                    }
                } else {
                    assert(i == idx.files@.len() - 1);
                    assert(!has_file(idx_before, e.file_path@));
                    assert(idx.files@.last().file@ == e.file_path@);
                    assert(p(entries@[k as int]));
                    assert forall|m: int|
                        0 <= m < entries@.take(k as int).len() implies !p(
                        #[trigger] entries@.take(k as int)[m],
                    ) by {
                        assert(has_file(idx_before, entries@[m].file_path@));
                        if p(entries@.take(k as int)[m]) {
                            assert(entries@[m].file_path@ == e.file_path@);
                            assert(has_file(idx_before, e.file_path@));
                        }
                    }
                    lemma_filter_none(entries@.take(k as int), p);
                    assert(Seq::<MapEntry>::empty().push(entries@[k as int]).map_values(
                        |e2: MapEntry| entry_info(e2),
                    ) =~= seq![entry_info(entries@[k as int])]);
                }
            }
        }
        k = k + 1;
    }
    proof {
        assert(entries@.take(entries@.len() as int) =~= entries@);
    }
    idx
}

/// Copy a bucket's symbols field by field.
fn copy_symbols(v: &Vec<SymbolInfo>) -> (r: Vec<SymbolInfo>)
    ensures
        r@.map_values(|s: SymbolInfo| sym_view(s)) == v@.map_values(|s: SymbolInfo| sym_view(s)),
{
    let mut out: Vec<SymbolInfo> = Vec::new();
    let mut i: usize = 0;
    while i < v.len()
        invariant
            0 <= i <= v@.len(),
            out@.len() == i,
            forall|k: int| 0 <= k < i ==> sym_view(#[trigger] out@[k]) == sym_view(v@[k]),
        decreases v@.len() - i,
    {
        let s = &v[i];
        out.push(SymbolInfo {
            name: s.name.clone(),
            symbol_type: s.symbol_type.clone(),
            start_line: s.start_line,
            end_line: s.end_line,
        });
        i = i + 1;
    }
    proof {
        assert(out@.map_values(|s: SymbolInfo| sym_view(s)) =~= v@.map_values(
            |s: SymbolInfo| sym_view(s),
        ));
    }
    out
}

/// A bucket's file and symbol fields.
pub open spec fn bucket_view(b: FileSymbols) -> (Seq<char>, Seq<(Seq<char>, Seq<char>, u32, u32)>) {
    (b.file@, b.symbols@.map_values(|s: SymbolInfo| sym_view(s)))
}

/// Merge the directly extracted index with the one read from the chunks
/// table: direct extraction takes precedence, and table buckets for files
/// it did not cover are appended in table order.
pub fn merge_indices(direct: SymbolIndex, global: &SymbolIndex) -> (r: SymbolIndex)
    requires
        index_wf(direct),
        index_wf(*global),
    ensures
        index_wf(r),
        r.files@.take(direct.files@.len() as int) == direct.files@,
        r.files@.skip(direct.files@.len() as int).map_values(|b: FileSymbols| bucket_view(b))
            == global.files@.filter(|b: FileSymbols| !has_file(direct, b.file@)).map_values(
            |b: FileSymbols| bucket_view(b),
        ),
{
    let ghost dlen = direct.files@.len() as int;
    let mut r = direct;
    let ghost direct_files = r.files@;
    let mut g: usize = 0;
    proof {
        assert(global.files@.take(0) =~= Seq::<FileSymbols>::empty());
        assert(r.files@.take(dlen) =~= direct_files);
        assert(r.files@.skip(dlen) =~= Seq::<FileSymbols>::empty());
        assert(r.files@.skip(dlen).map_values(|b: FileSymbols| bucket_view(b))
            =~= Seq::<(Seq<char>, Seq<(Seq<char>, Seq<char>, u32, u32)>)>::empty());
        assert(Seq::<FileSymbols>::empty().filter(
            |b: FileSymbols| !has_file(direct, b.file@),
        ) =~= Seq::<FileSymbols>::empty()) by {
            lemma_filter_none(
                Seq::<FileSymbols>::empty(),
                |b: FileSymbols| !has_file(direct, b.file@),
            );
        };
    }
    while g < global.files.len()
        invariant
            0 <= g <= global.files@.len(),
            index_wf(*global),
            index_wf(r),
            dlen == direct.files@.len() as int,
            direct_files == direct.files@,
            r.files@.len() >= dlen,
            r.files@.take(dlen) == direct_files,
            forall|i: int|
                dlen <= i < r.files@.len() ==> has_file(*global, (#[trigger] r.files@[i]).file@),
            r.files@.skip(dlen).map_values(|b: FileSymbols| bucket_view(b)) == global.files@.take(
                g as int,
            ).filter(|b: FileSymbols| !has_file(direct, b.file@)).map_values(
                |b: FileSymbols| bucket_view(b),
            ),
        decreases global.files@.len() - g,
    {
        let gb = &global.files[g];
        let ghost p = |b: FileSymbols| !has_file(direct, b.file@);
        proof {
            assert(global.files@.take(g as int + 1) =~= global.files@.take(g as int).push(
                global.files@[g as int],
            ));
            lemma_filter_push(global.files@.take(g as int), p, global.files@[g as int]);
        }
        let mut absent = true;
        let mut d: usize = 0;
        while d < r.files.len()
            invariant
                0 <= d <= r.files@.len(),
                0 <= g < global.files@.len(),
                gb == global.files@[g as int],
                absent ==> forall|k: int| 0 <= k < d ==> (#[trigger] r.files@[k]).file@ != gb.file@,
                !absent ==> exists|k: int|
                    0 <= k < r.files@.len() && (#[trigger] r.files@[k]).file@ == gb.file@,
            decreases r.files@.len() - d,
        {
            if str_eq(r.files[d].file.as_str(), gb.file.as_str()) {
                absent = false;
            }
            d = d + 1;
        }
        if absent {
            proof {
                assert(forall|k: int|
                    0 <= k < r.files@.len() ==> (#[trigger] r.files@[k]).file@ != gb.file@);
                if has_file(direct, gb.file@) {
                    let w = choose|i: int|
                        0 <= i < direct.files@.len() && (#[trigger] direct.files@[i]).file@
                            == gb.file@;
                    assert(r.files@[w] == direct_files[w]);
                    assert(false);
                }
                assert(p(global.files@[g as int]));
            }
            let ghost r_before = r.files@;
            let bucket = FileSymbols { file: gb.file.clone(), symbols: copy_symbols(&gb.symbols) };
            r.files.push(bucket);
            proof {
                assert(r.files@.drop_last() =~= r_before);
                assert(r.files@.take(dlen) =~= r_before.take(dlen));
                assert(r.files@.skip(dlen) =~= r_before.skip(dlen).push(r.files@.last()));
                assert(bucket_view(r.files@.last()) == bucket_view(global.files@[g as int]));
                assert(r.files@.skip(dlen).map_values(|b: FileSymbols| bucket_view(b))
                    =~= r_before.skip(dlen).map_values(|b: FileSymbols| bucket_view(b)).push(
                    bucket_view(global.files@[g as int]),
                ));
                assert(global.files@.take(g as int).filter(p).push(
                    global.files@[g as int],
                ).map_values(|b: FileSymbols| bucket_view(b)) =~= global.files@.take(
                    g as int,
                ).filter(p).map_values(|b: FileSymbols| bucket_view(b)).push(
                    bucket_view(global.files@[g as int]),
                ));
            }
        } else {
            proof {
                let w = choose|k: int|
                    0 <= k < r.files@.len() && (#[trigger] r.files@[k]).file@ == gb.file@;
                if w >= dlen {
                    let j = w - dlen;
                    let gf = global.files@.take(g as int).filter(p);
                    assert(gf.map_values(|b: FileSymbols| bucket_view(b)).len() == gf.len());
                    assert(r.files@.skip(dlen).map_values(|b: FileSymbols| bucket_view(b)).len()
                        == r.files@.skip(dlen).len());
                    assert(0 <= j < gf.len());
                    assert(r.files@.skip(dlen)[j] == r.files@[w]);
                    assert(r.files@.skip(dlen).map_values(|b: FileSymbols| bucket_view(b))[j]
                        == bucket_view(r.files@[w]));
                    assert(gf.map_values(|b: FileSymbols| bucket_view(b))[j] == bucket_view(
                        gf[j],
                    ));
                    assert(bucket_view(gf[j]).0 == gb.file@);
                    lemma_filter_member(global.files@.take(g as int), p, j);
                    let m = choose|m: int|
                        0 <= m < global.files@.take(g as int).len() && global.files@.take(
                            g as int,
                        )[m] == gf[j];
                    assert(global.files@[m].file@ == gb.file@);
                    assert(m < g as int);
                    assert(global.files@[m].file@ != global.files@[g as int].file@);
                    assert(false);
                } else {
                    assert(r.files@[w] == direct_files[w]);
                    assert(has_file(direct, gb.file@));
                    assert(!p(global.files@[g as int]));
                }
                assert(global.files@.take(g as int + 1).filter(p) == global.files@.take(
                    g as int,
                ).filter(p));
            }
        }
        g = g + 1;
    }
    proof {
        assert(global.files@.take(global.files@.len() as int) =~= global.files@);
    }
    r
}

} // verus!

verus! {

/// A batcher whose pending batch has been fully released accounts for
/// every edge it ever accepted in its total: this ties the reported edge
/// count to the rows actually handed to the store.
pub proof fn lemma_drained_batcher_total(b: EdgeBatcher)
    requires
        b.batch@.len() == 0,
    ensures
        b.total == emitted(b),
{
}

} // verus!
