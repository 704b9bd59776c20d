//! Chunking policy: a short file becomes one whole-file chunk, a file with
//! extracted symbols becomes one chunk per symbol, and anything else falls
//! back to a sliding window of 200 lines with 50 lines of overlap.

use vstd::prelude::*;
use vstd::string::StrSliceExecFns;
use crate::ids::{chunk_id, chunk_id_of};
use crate::extract::{extract_symbols, symbol_outcome, ExtractedSymbol};
use crate::languages::supported_lang;
use crate::text::str_eq;

verus! {

/// A chunk row as persisted in the chunks table. The dense vector that may
/// accompany a row is attached outside the library.
pub struct ChunkRecord {
    pub id: String,
    pub repo_id: String,
    pub file_path: String,
    pub language: String,
    pub symbol_name: String,
    pub symbol_type: String,
    pub start_line: u32,
    pub end_line: u32,
    pub content: String,
}

/// A chunk's identifier is the hash of its logical key: this is what makes
/// upserts idempotent.
pub open spec fn chunk_wf(c: ChunkRecord) -> bool {
    c.id@ == chunk_id_of(c.repo_id@, c.file_path@, c.symbol_name@, c.start_line)
}

/// Split of a character sequence at every `'\n'`; always one more piece
/// than there are newlines.
pub open spec fn split_nl(s: Seq<char>) -> Seq<Seq<char>>
    decreases s.len(),
{
    if s.len() == 0 {
        seq![Seq::<char>::empty()]
    } else if s[0] == '\n' {
        seq![Seq::<char>::empty()] + split_nl(s.skip(1))
    } else {
        seq![seq![s[0]] + split_nl(s.skip(1))[0]] + split_nl(s.skip(1)).skip(1)
    }
}

/// A line with one trailing carriage return removed.
pub open spec fn trim_cr(l: Seq<char>) -> Seq<char> {
    if l.len() > 0 && l[l.len() - 1] == '\r' {
        l.take(l.len() - 1)
    } else {
        l
    }
}

/// The lines of a source text, as `str::lines` yields them: split at
/// `'\n'`, a `'\r'` preceding each split removed, the final empty piece
/// after a trailing newline dropped, an unterminated final line kept
/// as it stands, and no lines at all for the empty text.
pub open spec fn rust_lines(s: Seq<char>) -> Seq<Seq<char>> {
    if s.len() == 0 {
        Seq::<Seq<char>>::empty()
    } else {
        let raw = split_nl(s);
        if s[s.len() - 1] == '\n' {
            raw.drop_last().map_values(|l: Seq<char>| trim_cr(l))
        } else {
            raw.drop_last().map_values(|l: Seq<char>| trim_cr(l)).push(raw.last())
        }
    }
}

proof fn lemma_split_nl_no_newline(a: Seq<char>)
    requires
        forall|k: int| 0 <= k < a.len() ==> a[k] != '\n',
    ensures
        split_nl(a) == seq![a],
    decreases a.len(),
{
    if a.len() == 0 {
        assert(a =~= Seq::<char>::empty());
        assert(split_nl(a) =~= seq![a]);
    } else {
        lemma_split_nl_no_newline(a.skip(1));
        assert(split_nl(a.skip(1))[0] == a.skip(1));
        assert(seq![a[0]] + a.skip(1) =~= a);
        assert(split_nl(a.skip(1)).skip(1) =~= Seq::<Seq<char>>::empty());
        assert(split_nl(a) =~= seq![seq![a[0]] + a.skip(1)] + Seq::<Seq<char>>::empty());
        assert(split_nl(a) =~= seq![a]);
    }
}

proof fn lemma_split_nl_break(a: Seq<char>, b: Seq<char>)
    requires
        forall|k: int| 0 <= k < a.len() ==> a[k] != '\n',
    ensures
        split_nl(a + seq!['\n'] + b) == seq![a] + split_nl(b),
    decreases a.len(),
{
    let s = a + seq!['\n'] + b;
    if a.len() == 0 {
        assert(s[0] == '\n');
        assert(s.skip(1) =~= b);
        assert(a =~= Seq::<char>::empty());
        assert(split_nl(s) =~= seq![a] + split_nl(b));
    } else {
        assert(s[0] == a[0] && s[0] != '\n');
        assert(s.skip(1) =~= a.skip(1) + seq!['\n'] + b);
        lemma_split_nl_break(a.skip(1), b);
        assert(split_nl(s.skip(1)) == seq![a.skip(1)] + split_nl(b));
        assert(split_nl(s.skip(1))[0] == a.skip(1));
        assert(seq![s[0]] + a.skip(1) =~= a);
        assert(split_nl(s.skip(1)).skip(1) =~= split_nl(b));
        assert(split_nl(s) =~= seq![a] + split_nl(b));
    }
}

/// Split a source text into its lines, as `str::lines` does.
pub fn split_lines(s: &str) -> (r: Vec<String>)
    ensures
        r@.map_values(|l: String| l@) == rust_lines(s@),
{
    let n = s.unicode_len();
    let mut out: Vec<String> = Vec::new();
    if n == 0 {
        proof {
            assert(out@.map_values(|l: String| l@) =~= rust_lines(s@));
        }
        return out;
    }
    let ghost mut raw_done: Seq<Seq<char>> = Seq::empty();
    let mut seg = String::new();
    let mut seg_start: usize = 0;
    let mut i: usize = 0;
    proof {
        assert(s@.skip(0) =~= s@);
        assert(out@.map_values(|l: String| l@) =~= raw_done.map_values(|l: Seq<char>| trim_cr(l)));
    }
    while i < n
        invariant
            0 <= seg_start <= i <= n == s@.len(),
            n > 0,
            seg@ == s@.subrange(seg_start as int, i as int),
            seg_start == 0 || s@[seg_start as int - 1] == '\n',
            forall|k: int| seg_start <= k < i ==> s@[k] != '\n',
            split_nl(s@) == raw_done + split_nl(s@.skip(seg_start as int)),
            out@.map_values(|l: String| l@) == raw_done.map_values(|l: Seq<char>| trim_cr(l)),
        decreases n - i,
    {
        let c = s.get_char(i);
        if c == '\n' {
            proof {
                assert(s@.skip(seg_start as int) =~= seg@ + seq!['\n'] + s@.skip(i as int + 1));
                lemma_split_nl_break(seg@, s@.skip(i as int + 1));
            }
            let line = if seg.unicode_len() > 0 && seg.as_str().get_char(seg.unicode_len() - 1)
                == '\r' {
                let m = seg.unicode_len();
                seg.as_str().substring_char(0, m - 1).to_owned()
            } else {
                seg.clone()
            };
            proof {
                if seg@.len() > 0 && seg@[seg@.len() - 1] == '\r' {
                    assert(seg@.take(seg@.len() - 1) =~= seg@.subrange(0, seg@.len() - 1));
                }
                assert(line@ == trim_cr(seg@));
            }
            let ghost out_before = out@;
            let ghost raw_before = raw_done;
            out.push(line);
            proof {
                raw_done = raw_done.push(seg@);
                assert(out@ == out_before.push(line));
                assert(out@.map_values(|l: String| l@) =~= out_before.map_values(
                    |l: String| l@,
                ).push(line@));
                assert(raw_done.map_values(|l: Seq<char>| trim_cr(l)) =~= raw_before.map_values(
                    |l: Seq<char>| trim_cr(l),
                ).push(trim_cr(seg@)));
            }
            seg = String::new();
            seg_start = i + 1;
            proof {
                assert(seg@ =~= s@.subrange(seg_start as int, i as int + 1));
            }
        } else {
            seg.append(s.substring_char(i, i + 1));
            proof {
                assert(s@.subrange(i as int, i as int + 1) =~= seq![s@[i as int]]);
                assert(seg@ =~= s@.subrange(seg_start as int, i as int + 1));
            }
        }
        i = i + 1;
    }
    proof {
        assert(s@.skip(seg_start as int) =~= seg@);
        lemma_split_nl_no_newline(seg@);
    }
    if seg.unicode_len() > 0 {
        proof {
            assert(s@[n - 1] != '\n');
        }
        let line = seg.clone();
        let ghost out_before = out@;
        out.push(line);
        proof {
            assert(raw_done + seq![seg@] =~= raw_done.push(seg@));
            assert(split_nl(s@) =~= raw_done.push(seg@));
            assert(s@[s@.len() - 1] != '\n');
            assert(raw_done.push(seg@).drop_last() =~= raw_done);
            assert(raw_done.push(seg@).last() == seg@);
            assert(rust_lines(s@) == raw_done.map_values(|l: Seq<char>| trim_cr(l)).push(seg@));
            assert(out@ == out_before.push(line));
            assert(out@.map_values(|l: String| l@) =~= out_before.map_values(
                |l: String| l@,
            ).push(seg@));
        }
    } else {
        proof {
            assert(seg_start == n);
            assert(s@[n - 1] == '\n');
            assert(raw_done + seq![seg@] =~= raw_done.push(seg@));
            assert(split_nl(s@) =~= raw_done.push(seg@));
            assert(split_nl(s@).drop_last() =~= raw_done);
            assert(rust_lines(s@) == raw_done.map_values(|l: Seq<char>| trim_cr(l)));
        }
    }
    out
}

/// The lines `ls` joined with `'\n'` between them.
pub open spec fn join_nl(ls: Seq<Seq<char>>) -> Seq<char>
    decreases ls.len(),
{
    if ls.len() == 0 {
        Seq::<char>::empty()
    } else if ls.len() == 1 {
        ls[0]
    } else {
        ls[0] + seq!['\n'] + join_nl(ls.skip(1))
    }
}

proof fn lemma_join_nl_snoc(ls: Seq<Seq<char>>, l: Seq<char>)
    requires
        ls.len() > 0,
    ensures
        join_nl(ls.push(l)) == join_nl(ls) + seq!['\n'] + l,
    decreases ls.len(),
{
    if ls.len() == 1 {
        assert(ls.push(l)[0] == ls[0]);
        assert(ls.push(l).skip(1) =~= seq![l]);
        assert(join_nl(seq![l]) == l);
        assert(join_nl(ls.push(l)) =~= join_nl(ls) + seq!['\n'] + l);
    } else {
        assert(ls.push(l).skip(1) =~= ls.skip(1).push(l));
        lemma_join_nl_snoc(ls.skip(1), l);
        assert(join_nl(ls.push(l)) =~= join_nl(ls) + seq!['\n'] + l);
    }
}

/// Join `lines[start..end]` with `'\n'`.
fn join_range(lines: &Vec<String>, start: usize, end: usize) -> (r: String)
    requires
        0 <= start <= end <= lines@.len(),
    ensures
        r@ == join_nl(lines@.map_values(|l: String| l@).subrange(start as int, end as int)),
{
    let ghost lv = lines@.map_values(|l: String| l@);
    let mut out = String::new();
    let mut k: usize = start;
    proof {
        assert(lv.subrange(start as int, start as int) =~= Seq::<Seq<char>>::empty());
    }
    while k < end
        invariant
            start <= k <= end <= lines@.len(),
            lv == lines@.map_values(|l: String| l@),
            out@ == join_nl(lv.subrange(start as int, k as int)),
        decreases end - k,
    {
        if k > start {
            out.append("\n");
            proof {
                reveal_strlit("\n");
            }
        }
        out.append(lines[k].as_str());
        proof {
            assert(lv.subrange(start as int, k as int + 1) =~= lv.subrange(
                start as int,
                k as int,
            ).push(lv[k as int]));
            if k > start {
                lemma_join_nl_snoc(lv.subrange(start as int, k as int), lv[k as int]);
                assert("\n"@ =~= seq!['\n']);
            } else {
                assert(lv.subrange(start as int, k as int).len() == 0);
                assert(lv.subrange(start as int, k as int + 1) =~= seq![lv[k as int]]);
            }
        }
        k = k + 1;
    }
    out
}

/// The number of sliding windows over `n` lines: one while 200 lines
/// suffice, stepping by 150 afterwards.
pub open spec fn window_count(n: nat) -> nat
    decreases n,
{
    if n <= 200 {
        1
    } else {
        (1 + window_count((n - 150) as nat)) as nat
    }
}

/// The whole-file chunk for a short file.
pub open spec fn file_chunk_rec(
    c: ChunkRecord,
    repo: Seq<char>,
    file: Seq<char>,
    lang: Seq<char>,
    source: Seq<char>,
    n: nat,
) -> bool {
    c.id@ == chunk_id_of(repo, file, Seq::<char>::empty(), 1) && c.repo_id@ == repo
        && c.file_path@ == file && c.language@ == lang && c.symbol_name@ == Seq::<char>::empty()
        && c.symbol_type@ == "file_chunk"@ && c.start_line == 1 && c.end_line == n && c.content@
        == source
}

/// One chunk per extracted symbol, in symbol order.
pub open spec fn symbol_chunks(
    r: Seq<ChunkRecord>,
    ss: Seq<(Seq<char>, Seq<char>, u32, u32, Seq<char>)>,
    repo: Seq<char>,
    file: Seq<char>,
    lang: Seq<char>,
) -> bool {
    r.len() == ss.len() && forall|k: int|
        0 <= k < r.len() ==> {
            let s = ss[k];
            (#[trigger] r[k]).id@ == chunk_id_of(repo, file, s.0, s.2) && r[k].repo_id@ == repo
                && r[k].file_path@ == file && r[k].language@ == lang && r[k].symbol_name@ == s.0
                && r[k].symbol_type@ == s.1 && r[k].start_line == s.2 && r[k].end_line == s.3
                && r[k].content@ == s.4
        }
}

/// The sliding-window chunks over a file's lines: window `k` spans lines
/// `150k + 1` through `min(150k + 200, n)`, one-based inclusive.
pub open spec fn window_chunks(
    r: Seq<ChunkRecord>,
    lines: Seq<Seq<char>>,
    repo: Seq<char>,
    file: Seq<char>,
    lang: Seq<char>,
) -> bool {
    let n = lines.len();
    r.len() == window_count(n) && forall|k: int|
        0 <= k < r.len() ==> {
            let lo = 150 * k;
            let hi = if lo + 200 <= n {
                lo + 200
            } else {
                n as int
            };
            (#[trigger] r[k]).id@ == chunk_id_of(repo, file, Seq::<char>::empty(), (150 * k + 1)
                as u32) && r[k].repo_id@ == repo && r[k].file_path@ == file && r[k].language@
                == lang && r[k].symbol_name@ == Seq::<char>::empty() && r[k].symbol_type@
                == "file_chunk"@ && r[k].start_line == 150 * k + 1 && r[k].end_line == hi
                && r[k].content@ == join_nl(lines.subrange(lo, hi))
        }
}

/// Chunk a file given the symbols its language's query extracted (empty
/// where extraction found none or was not attempted).
pub fn chunk_file_with_symbols(
    source: &str,
    file_path: &str,
    lang: &str,
    repo_id: &str,
    symbols: &Vec<ExtractedSymbol>,
) -> (r: Vec<ChunkRecord>)
    requires
        rust_lines(source@).len() < 0x1_0000_0000,
    ensures
        ({
            let lines = rust_lines(source@);
            let n = lines.len();
            &&& (n < 100 ==> r@.len() == 1 && file_chunk_rec(
                r@[0],
                repo_id@,
                file_path@,
                lang@,
                source@,
                n,
            ))
            &&& (n >= 100 && symbols@.len() > 0 ==> symbol_chunks(
                r@,
                symbols@.map_values(
                    |s: ExtractedSymbol| (s.name@, s.symbol_type@, s.start_line, s.end_line,
                    s.content@),
                ),
                repo_id@,
                file_path@,
                lang@,
            ))
            &&& (n >= 100 && symbols@.len() == 0 ==> window_chunks(
                r@,
                lines,
                repo_id@,
                file_path@,
                lang@,
            ))
            &&& forall|k: int| 0 <= k < r@.len() ==> chunk_wf(#[trigger] r@[k])
        }),
{
    let lines = split_lines(source);
    let ghost lv = rust_lines(source@);
    let n = lines.len();
    let mut out: Vec<ChunkRecord> = Vec::new();
    if n < 100 {
        let c = ChunkRecord {
            id: chunk_id(repo_id, file_path, "", 1),
            repo_id: repo_id.to_owned(),
            file_path: file_path.to_owned(),
            language: lang.to_owned(),
            symbol_name: "".to_owned(),
            symbol_type: "file_chunk".to_owned(),
            start_line: 1,
            end_line: n as u32,
            content: source.to_owned(),
        };
        proof {
            reveal_strlit("");
            assert(""@ =~= Seq::<char>::empty());
        }
        out.push(c);
        return out;
    }
    if symbols.len() > 0 {
        let mut k: usize = 0;
        while k < symbols.len()
            invariant
                0 <= k <= symbols@.len(),
                out@.len() == k,
                forall|j: int|
                    0 <= j < k ==> {
                        let s = symbols@[j];
                        (#[trigger] out@[j]).id@ == chunk_id_of(
                            repo_id@,
                            file_path@,
                            s.name@,
                            s.start_line,
                        ) && out@[j].repo_id@ == repo_id@ && out@[j].file_path@ == file_path@
                            && out@[j].language@ == lang@ && out@[j].symbol_name@ == s.name@
                            && out@[j].symbol_type@ == s.symbol_type@ && out@[j].start_line
                            == s.start_line && out@[j].end_line == s.end_line && out@[j].content@
                            == s.content@
                    },
            decreases symbols@.len() - k,
        {
            let s = &symbols[k];
            let c = ChunkRecord {
                id: chunk_id(repo_id, file_path, s.name.as_str(), s.start_line),
                repo_id: repo_id.to_owned(),
                file_path: file_path.to_owned(),
                language: lang.to_owned(),
                symbol_name: s.name.clone(),
                symbol_type: s.symbol_type.clone(),
                start_line: s.start_line,
                end_line: s.end_line,
                content: s.content.clone(),
            };
            out.push(c);
            k = k + 1;
        }
        return out;
    }
    let mut start: usize = 0;
    let ghost mut wins: int = 0;
    loop
        invariant_except_break
            n == lv.len() < 0x1_0000_0000,
            lv == rust_lines(source@),
            n == lines@.len(),
            lines@.map_values(|l: String| l@) == lv,
            n >= 100,
            start == 150 * wins,
            0 <= wins == out@.len(),
            start < n,
            wins > 0 ==> 150 * (wins - 1) + 200 < n,
            window_count(lv.len()) == wins + window_count((n - start) as nat),
            forall|k: int|
                0 <= k < out@.len() ==> {
                    let lo = 150 * k;
                    let hi = if lo + 200 <= lv.len() {
                        lo + 200
                    } else {
                        lv.len() as int
                    };
                    (#[trigger] out@[k]).id@ == chunk_id_of(
                        repo_id@,
                        file_path@,
                        Seq::<char>::empty(),
                        (150 * k + 1) as u32,
                    ) && out@[k].repo_id@ == repo_id@ && out@[k].file_path@ == file_path@
                        && out@[k].language@ == lang@ && out@[k].symbol_name@
                        == Seq::<char>::empty() && out@[k].symbol_type@ == "file_chunk"@
                        && out@[k].start_line == 150 * k + 1 && out@[k].end_line == hi
                        && out@[k].content@ == join_nl(lv.subrange(lo, hi))
                },
        ensures
            window_chunks(out@, lv, repo_id@, file_path@, lang@),
        decreases n - start,
    {
        let end = if n - start > 200 {
            start + 200
        } else {
            n
        };
        let content = join_range(&lines, start, end);
        let c = ChunkRecord {
            id: chunk_id(repo_id, file_path, "", (start + 1) as u32),
            repo_id: repo_id.to_owned(),
            file_path: file_path.to_owned(),
            language: lang.to_owned(),
            symbol_name: "".to_owned(),
            symbol_type: "file_chunk".to_owned(),
            start_line: (start + 1) as u32,
            end_line: end as u32,
            content,
        };
        proof {
            reveal_strlit("");
            assert(""@ =~= Seq::<char>::empty());
        }
        out.push(c);
        proof {
            wins = wins + 1;
        }
        if end >= n {
            proof {
                assert((n - start) as nat <= 200);
                assert(window_count((n - start) as nat) == 1);
            }
            break ;
        }
        proof {
            assert((n - start) as nat > 200);
            assert(window_count((n - start) as nat) == 1 + window_count((n - start - 150) as nat));
        }
        start = start + 150;
    }
    out
}

/// Chunk a file: short files become one whole-file chunk; otherwise the
/// language's extracted symbols become one chunk each, falling back to
/// sliding windows when extraction is unavailable or finds nothing.
pub fn chunk_file(source: &str, file_path: &str, lang: &str, repo_id: &str) -> (r: Vec<
    ChunkRecord,
>)
    requires
        rust_lines(source@).len() < 0x1_0000_0000,
    ensures
        ({
            let lines = rust_lines(source@);
            let n = lines.len();
            &&& (n < 100 ==> r@.len() == 1 && file_chunk_rec(
                r@[0],
                repo_id@,
                file_path@,
                lang@,
                source@,
                n,
            ))
            &&& (n >= 100 ==> (match symbol_outcome(lang@, source@) {
                Some(ss) => if ss.len() > 0 {
                    symbol_chunks(r@, ss, repo_id@, file_path@, lang@)
                } else {
                    window_chunks(r@, lines, repo_id@, file_path@, lang@)
                },
                None => window_chunks(r@, lines, repo_id@, file_path@, lang@),
            }))
            &&& forall|k: int| 0 <= k < r@.len() ==> chunk_wf(#[trigger] r@[k])
        }),
{
    let lines = split_lines(source);
    let n = lines.len();
    let no_symbols: Vec<ExtractedSymbol> = Vec::new();
    if n < 100 {
        return chunk_file_with_symbols(source, file_path, lang, repo_id, &no_symbols);
    }
    if !str_eq(lang, "unknown") {
        match extract_symbols(source, lang) {
            Ok(symbols) => {
                if symbols.len() > 0 {
                    let r = chunk_file_with_symbols(source, file_path, lang, repo_id, &symbols);
                    proof {
                        let so = symbol_outcome(lang@, source@);
                        assert(so is Some);
                        let ss = match so {
                            Some(ss) => ss,
                            None => Seq::empty(),
                        };
                        assert(symbols@.map_values(
                            |s: ExtractedSymbol| (s.name@, s.symbol_type@, s.start_line,
                            s.end_line, s.content@),
                        ) =~= ss);
                        assert(ss.len() > 0);
                        assert(symbol_chunks(r@, ss, repo_id@, file_path@, lang@));
                    }
                    return r;
                }
                let r = chunk_file_with_symbols(source, file_path, lang, repo_id, &no_symbols);
                proof {
                    assert(symbol_outcome(lang@, source@) is Some);
                }
                return r;
            },
            Err(_) => {
                proof {
                    assert(symbol_outcome(lang@, source@) is None);
                }
            },
        }
    } else {
        proof {
            lemma_unknown_unsupported(lang@);
            assert(symbol_outcome(lang@, source@) is None);
        }
    }
    chunk_file_with_symbols(source, file_path, lang, repo_id, &no_symbols)
}

proof fn lemma_unknown_unsupported(l: Seq<char>)
    requires
        l == "unknown"@,
    ensures
        !supported_lang(l),
{
    reveal_strlit("unknown");
    reveal_strlit("rust");
    reveal_strlit("python");
    reveal_strlit("typescript");
    reveal_strlit("javascript");
    reveal_strlit("go");
    reveal_strlit("java");
    reveal_strlit("c");
    reveal_strlit("cpp");
    reveal_strlit("kotlin");
    assert("unknown"@.len() == 7);
    assert("rust"@.len() == 4);
    assert("python"@.len() == 6);
    assert("typescript"@.len() == 10);
    assert("javascript"@.len() == 10);
    assert("go"@.len() == 2);
    assert("java"@.len() == 4);
    assert("c"@.len() == 1);
    assert("cpp"@.len() == 3);
    assert("kotlin"@.len() == 6);
}

/// Re-derive a chunk's identifier from its logical key fields.
pub fn recompute_chunk_id(c: &ChunkRecord) -> (r: String)
    ensures
        r@ == chunk_id_of(c.repo_id@, c.file_path@, c.symbol_name@, c.start_line),
{
    chunk_id(c.repo_id.as_str(), c.file_path.as_str(), c.symbol_name.as_str(), c.start_line)
}

/// Every chunk the chunker emits carries the identifier recomputable from
/// its `(repo_id, file_path, symbol_name, start_line)` key: this is the
/// stability law behind idempotent re-indexing.
pub proof fn lemma_chunk_id_recompute(c: ChunkRecord)
    requires
        chunk_wf(c),
    ensures
        c.id@ == chunk_id_of(c.repo_id@, c.file_path@, c.symbol_name@, c.start_line),
{
}

} // verus!
