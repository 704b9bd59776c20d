//! Construction of store filters: a conjunction of equality and `IN`
//! predicates over quoted literals, with single quotes doubled so that
//! untrusted names cannot escape their literal.

use vstd::prelude::*;
use vstd::string::StrSliceExecFns;

verus! {

/// A string literal's characters with every single quote doubled.
pub open spec fn escaped(s: Seq<char>) -> Seq<char>
    decreases s.len(),
{
    if s.len() == 0 {
        Seq::<char>::empty()
    } else {
        (if s[0] == '\'' {
            seq!['\'', '\'']
        } else {
            seq![s[0]]
        }) + escaped(s.skip(1))
    }
}

proof fn lemma_escaped_snoc(s: Seq<char>, c: char)
    ensures
        escaped(s.push(c)) == escaped(s) + (if c == '\'' {
            seq!['\'', '\'']
        } else {
            seq![c]
        }),
    decreases s.len(),
{
    if s.len() == 0 {
        assert(s.push(c)[0] == c);
        assert(s.push(c).skip(1) =~= Seq::<char>::empty());
        assert(escaped(Seq::<char>::empty()) == Seq::<char>::empty());
        assert(escaped(s) == Seq::<char>::empty());
        assert(escaped(s.push(c)) =~= escaped(s) + (if c == '\'' {
            seq!['\'', '\'']
        } else {
            seq![c]
        }));
    } else {
        assert(s.push(c)[0] == s[0]);
        assert(s.push(c).skip(1) =~= s.skip(1).push(c));
        lemma_escaped_snoc(s.skip(1), c);
        assert(escaped(s.push(c)) =~= escaped(s) + (if c == '\'' {
            seq!['\'', '\'']
        } else {
            seq![c]
        }));
    }
}

/// Double every single quote in a string, making it safe inside a quoted
/// filter literal.
pub fn escape_literal(s: &str) -> (r: String)
    ensures
        r@ == escaped(s@),
{
    let n = s.unicode_len();
    let mut out = String::new();
    let mut i: usize = 0;
    proof {
        assert(s@.take(0) =~= Seq::<char>::empty());
    }
    while i < n
        invariant
            0 <= i <= n == s@.len(),
            out@ == escaped(s@.take(i as int)),
        decreases n - i,
    {
        let c = s.get_char(i);
        if c == '\'' {
            out.append("''");
            proof {
                reveal_strlit("''");
            }
        } else {
            out.append(s.substring_char(i, i + 1));
        }
        proof {
            assert(s@.take(i as int + 1) =~= s@.take(i as int).push(s@[i as int]));
            lemma_escaped_snoc(s@.take(i as int), s@[i as int]);
            assert(s@.subrange(i as int, i as int + 1) =~= seq![s@[i as int]]);
            assert("''"@ =~= seq!['\'', '\'']) by {
                reveal_strlit("''");
            };
        }
        i = i + 1;
    }
    proof {
        assert(s@.take(n as int) =~= s@);
    }
    out
}

/// An equality predicate on a column: `col = '<escaped literal>'`.
pub open spec fn eq_pred(col: Seq<char>, lit: Seq<char>) -> Seq<char> {
    col + " = '"@ + escaped(lit) + "'"@
}

/// Build `col = '<literal>'` with the literal escaped.
pub fn eq_filter(col: &str, lit: &str) -> (r: String)
    ensures
        r@ == eq_pred(col@, lit@),
{
    let mut out = col.to_owned();
    out.append(" = '");
    let esc = escape_literal(lit);
    out.append(esc.as_str());
    out.append("'");
    out
}

/// Conjunction of predicate parts, joined with `" AND "`.
pub open spec fn and_join(parts: Seq<Seq<char>>) -> Seq<char>
    decreases parts.len(),
{
    if parts.len() == 0 {
        Seq::<char>::empty()
    } else if parts.len() == 1 {
        parts[0]
    } else {
        parts[0] + " AND "@ + and_join(parts.skip(1))
    }
}

proof fn lemma_and_join_snoc(parts: Seq<Seq<char>>, p: Seq<char>)
    requires
        parts.len() > 0,
    ensures
        and_join(parts.push(p)) == and_join(parts) + " AND "@ + p,
    decreases parts.len(),
{
    if parts.len() == 1 {
        assert(parts.push(p)[0] == parts[0]);
        assert(parts.push(p).skip(1) =~= seq![p]);
        assert(and_join(seq![p]) == p);
        assert(and_join(parts.push(p)) =~= and_join(parts) + " AND "@ + p);
    } else {
        assert(parts.push(p).skip(1) =~= parts.skip(1).push(p));
        lemma_and_join_snoc(parts.skip(1), p);
        assert(and_join(parts.push(p)) =~= and_join(parts) + " AND "@ + p);
    }
}

/// Join predicate parts with `" AND "`.
pub fn join_and(parts: &Vec<String>) -> (r: String)
    ensures
        r@ == and_join(parts@.map_values(|p: String| p@)),
{
    let ghost pv = parts@.map_values(|p: String| p@);
    let mut out = String::new();
    let mut i: usize = 0;
    proof {
        assert(pv.take(0) =~= Seq::<Seq<char>>::empty());
    }
    while i < parts.len()
        invariant
            0 <= i <= parts@.len(),
            pv == parts@.map_values(|p: String| p@),
            out@ == and_join(pv.take(i as int)),
        decreases parts@.len() - i,
    {
        if i > 0 {
            out.append(" AND ");
        }
        out.append(parts[i].as_str());
        proof {
            assert(pv.take(i as int + 1) =~= pv.take(i as int).push(pv[i as int]));
            if i > 0 {
                lemma_and_join_snoc(pv.take(i as int), pv[i as int]);
            } else {
                assert(pv.take(1int) =~= seq![pv[0]]);
            }
        }
        i = i + 1;
    }
    proof {
        assert(pv.take(parts@.len() as int) =~= pv);
    }
    out
}

/// The `repo_id IN ('a', 'b', …)` predicate for a workspace's
/// repositories, each identifier escaped.
pub open spec fn in_list(ids: Seq<Seq<char>>) -> Seq<char>
    decreases ids.len(),
{
    if ids.len() == 0 {
        Seq::<char>::empty()
    } else if ids.len() == 1 {
        "'"@ + escaped(ids[0]) + "'"@
    } else {
        "'"@ + escaped(ids[0]) + "'"@ + ", "@ + in_list(ids.skip(1))
    }
}

proof fn lemma_in_list_snoc(ids: Seq<Seq<char>>, x: Seq<char>)
    requires
        ids.len() > 0,
    ensures
        in_list(ids.push(x)) == in_list(ids) + ", "@ + "'"@ + escaped(x) + "'"@,
    decreases ids.len(),
{
    if ids.len() == 1 {
        assert(ids.push(x)[0] == ids[0]);
        assert(ids.push(x).skip(1) =~= seq![x]);
        assert(in_list(seq![x]) == "'"@ + escaped(x) + "'"@);
        assert(in_list(ids.push(x)) =~= in_list(ids) + ", "@ + "'"@ + escaped(x) + "'"@);
    } else {
        assert(ids.push(x).skip(1) =~= ids.skip(1).push(x));
        lemma_in_list_snoc(ids.skip(1), x);
        assert(in_list(ids.push(x)) =~= in_list(ids) + ", "@ + "'"@ + escaped(x) + "'"@);
    }
}

/// The full workspace predicate: `repo_id IN (<quoted ids>)`.
pub open spec fn in_pred(ids: Seq<Seq<char>>) -> Seq<char> {
    "repo_id IN ("@ + in_list(ids) + ")"@
}

/// Build `repo_id IN ('a', 'b', …)` over a workspace's repositories.
pub fn repo_in_filter(ids: &Vec<String>) -> (r: String)
    ensures
        r@ == in_pred(ids@.map_values(|s: String| s@)),
{
    let ghost iv = ids@.map_values(|s: String| s@);
    let mut list = String::new();
    let mut i: usize = 0;
    proof {
        assert(iv.take(0) =~= Seq::<Seq<char>>::empty());
        assert(in_list(iv.take(0)) =~= Seq::<char>::empty());
    }
    while i < ids.len()
        invariant
            0 <= i <= ids@.len(),
            iv == ids@.map_values(|s: String| s@),
            list@ == in_list(iv.take(i as int)),
        decreases ids@.len() - i,
    {
        if i > 0 {
            list.append(", ");
        }
        list.append("'");
        let esc = escape_literal(ids[i].as_str());
        list.append(esc.as_str());
        list.append("'");
        proof {
            assert(iv.take(i as int + 1) =~= iv.take(i as int).push(iv[i as int]));
            if i > 0 {
                lemma_in_list_snoc(iv.take(i as int), iv[i as int]);
            } else {
                assert(iv.take(1int) =~= seq![iv[0]]);
            }
        }
        i = i + 1;
    }
    proof {
        assert(iv.take(ids@.len() as int) =~= iv);
    }
    let mut out = "repo_id IN (".to_owned();
    out.append(list.as_str());
    out.append(")");
    out
}

/// The disjunctive symbol predicate used by reference queries:
/// `(target_name = 'S' OR target_qualified = 'S' OR source_symbol = 'S')`.
pub open spec fn symbol_pred(sym: Seq<char>) -> Seq<char> {
    "(target_name = '"@ + escaped(sym) + "' OR target_qualified = '"@ + escaped(sym)
        + "' OR source_symbol = '"@ + escaped(sym) + "')"@
}

/// Build the three-way symbol predicate for reference queries.
pub fn symbol_filter(sym: &str) -> (r: String)
    ensures
        r@ == symbol_pred(sym@),
{
    let esc = escape_literal(sym);
    let mut out = "(target_name = '".to_owned();
    out.append(esc.as_str());
    out.append("' OR target_qualified = '");
    out.append(esc.as_str());
    out.append("' OR source_symbol = '");
    out.append(esc.as_str());
    out.append("')");
    out
}

/// The predicate matching a symbol as a call target:
/// `(target_name = 'S' OR target_qualified = 'S')`.
pub open spec fn target_pred(sym: Seq<char>) -> Seq<char> {
    "(target_name = '"@ + escaped(sym) + "' OR target_qualified = '"@ + escaped(sym) + "')"@
}

/// Build the call-target predicate.
pub fn target_filter(sym: &str) -> (r: String)
    ensures
        r@ == target_pred(sym@),
{
    let esc = escape_literal(sym);
    let mut out = "(target_name = '".to_owned();
    out.append(esc.as_str());
    out.append("' OR target_qualified = '");
    out.append(esc.as_str());
    out.append("')");
    out
}

/// The first characters of a chunk's content shown in search results.
pub const SNIPPET_CHARS: usize = 300;

/// The leading snippet of a content string: at most [`SNIPPET_CHARS`]
/// characters.
pub fn snippet_of(content: &str) -> (r: String)
    ensures
        r@ == content@.take(if content@.len() <= SNIPPET_CHARS as int {
            content@.len() as int
        } else {
            SNIPPET_CHARS as int
        }),
{
    let n = content.unicode_len();
    let hi = if n <= SNIPPET_CHARS {
        n
    } else {
        SNIPPET_CHARS
    };
    content.substring_char(0, hi).to_owned()
}

} // verus!
