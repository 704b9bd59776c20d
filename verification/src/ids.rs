//! Stable identifiers for repositories, chunks and edges: the lowercase hex
//! SHA-256 of a colon-separated preimage built from the row's logical key.
//! Identifier stability is what makes re-indexing idempotent: the same
//! logical row always maps to the same store key.

use vstd::prelude::*;
use vstd::string::StrSliceExecFns;
use vstd::utf8::encode_utf8;
use crate::hashing::{hex_of, sha256_of, sha256, hex_encode};

verus! {

/// The decimal digit character for a value below 10.
pub open spec fn dec_digit_char(v: nat) -> char
    recommends
        v < 10,
{
    (('0' as u8) + v) as char
}

/// The usual decimal rendering of a natural number, no leading zeros
/// (a single `'0'` for zero).
pub open spec fn dec_of(n: nat) -> Seq<char>
    decreases n,
{
    if n < 10 {
        seq![dec_digit_char(n)]
    } else {
        dec_of(n / 10) + seq![dec_digit_char(n % 10)]
    }
}

/// Render a `u32` in decimal.
pub fn u32_dec(n: u32) -> (r: String)
    ensures
        r@ == dec_of(n as nat),
    decreases n,
{
    let digits: &str = "0123456789";
    proof {
        reveal_strlit("0123456789");
    }
    assert(digits@.len() == 10 && digits.is_ascii()) by {
        reveal_strlit("0123456789");
    };
    assert(forall|v: u32| v < 10 ==> digits@[v as int] == dec_digit_char(v as nat)) by {
        reveal_strlit("0123456789");
    };
    if n < 10 {
        let r = digits.substring_ascii(n as usize, n as usize + 1).to_owned();
        proof {
            assert(digits@.subrange(n as int, n + 1int) =~= seq![dec_digit_char(n as nat)]);
        }
        r
    } else {
        let mut s = u32_dec(n / 10);
        let m = n % 10;
        s.append(digits.substring_ascii(m as usize, m as usize + 1));
        proof {
            assert(digits@.subrange(m as int, m + 1int) =~= seq![dec_digit_char((n % 10) as nat)]);
            assert((n / 10) as nat == (n as nat) / 10);
            assert((n % 10) as nat == (n as nat) % 10);
        }
        s
    }
}

/// The preimage hashed for a repository identifier: the canonical path.
pub open spec fn repo_id_of(path: Seq<char>) -> Seq<char> {
    hex_of(sha256_of(encode_utf8(path)))
}

/// The preimage hashed for a chunk identifier.
pub open spec fn chunk_id_preimage(
    repo_id: Seq<char>,
    file_path: Seq<char>,
    symbol_name: Seq<char>,
    start_line: u32,
) -> Seq<char> {
    repo_id + seq![':'] + file_path + seq![':'] + symbol_name + seq![':']
        + dec_of(start_line as nat)
}

/// The chunk identifier for a logical chunk key.
pub open spec fn chunk_id_of(
    repo_id: Seq<char>,
    file_path: Seq<char>,
    symbol_name: Seq<char>,
    start_line: u32,
) -> Seq<char> {
    hex_of(sha256_of(encode_utf8(chunk_id_preimage(repo_id, file_path, symbol_name, start_line))))
}

/// The preimage hashed for an edge identifier.
pub open spec fn edge_id_preimage(
    repo_id: Seq<char>,
    source_file: Seq<char>,
    line: u32,
    target_name: Seq<char>,
    edge_type: Seq<char>,
) -> Seq<char> {
    repo_id + seq![':'] + source_file + seq![':'] + dec_of(line as nat) + seq![':']
        + target_name + seq![':'] + edge_type
}

/// The edge identifier for a logical edge key.
pub open spec fn edge_id_of(
    repo_id: Seq<char>,
    source_file: Seq<char>,
    line: u32,
    target_name: Seq<char>,
    edge_type: Seq<char>,
) -> Seq<char> {
    hex_of(sha256_of(encode_utf8(edge_id_preimage(repo_id, source_file, line, target_name,
        edge_type))))
}

/// Compute a stable repository identifier from its canonical path.
pub fn compute_repo_id(path: &str) -> (r: String)
    ensures
        r@ == repo_id_of(path@),
        r@.len() == 64,
{
    let digest = sha256(path.as_bytes());
    hex_encode(&digest)
}

/// Compute a stable chunk identifier from the chunk's logical key.
pub fn chunk_id(repo_id: &str, file_path: &str, symbol_name: &str, start_line: u32) -> (r:
    String)
    ensures
        r@ == chunk_id_of(repo_id@, file_path@, symbol_name@, start_line),
        r@.len() == 64,
{
    let mut s = repo_id.to_owned();
    s.append(":");
    s.append(file_path);
    s.append(":");
    s.append(symbol_name);
    s.append(":");
    let line_dec = u32_dec(start_line);
    s.append(line_dec.as_str());
    proof {
        reveal_strlit(":");
        assert(s@ =~= chunk_id_preimage(repo_id@, file_path@, symbol_name@, start_line));
    }
    let digest = sha256(s.as_str().as_bytes());
    hex_encode(&digest)
}

/// Compute a stable edge identifier from the edge's logical key.
pub fn edge_id(repo_id: &str, source_file: &str, line: u32, target_name: &str, edge_type: &str)
    -> (r: String)
    ensures
        r@ == edge_id_of(repo_id@, source_file@, line, target_name@, edge_type@),
        r@.len() == 64,
{
    let mut s = repo_id.to_owned();
    s.append(":");
    s.append(source_file);
    s.append(":");
    let line_dec = u32_dec(line);
    s.append(line_dec.as_str());
    s.append(":");
    s.append(target_name);
    s.append(":");
    s.append(edge_type);
    proof {
        reveal_strlit(":");
        assert(s@ =~= edge_id_preimage(repo_id@, source_file@, line, target_name@, edge_type@));
    }
    let digest = sha256(s.as_str().as_bytes());
    hex_encode(&digest)
}

} // verus!
