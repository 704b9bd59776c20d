//! Verified text utilities shared across the library — string equality,
//! quote trimming, trailing-segment extraction for qualified names and
//! file extensions — and the sequence-filter lemmas the other modules
//! share.

use vstd::prelude::*;
use vstd::string::StrSliceExecFns;

verus! {

pub(crate) proof fn lemma_filter_push<A>(s: Seq<A>, p: spec_fn(A) -> bool, x: A)
    ensures
        s.push(x).filter(p) == if p(x) {
            s.filter(p).push(x)
        } else {
            s.filter(p)
        },
{
    reveal(Seq::filter);
    assert(s.push(x).drop_last() =~= s);
    assert(s.push(x).last() == x);
}

pub(crate) proof fn lemma_filter_none<A>(s: Seq<A>, p: spec_fn(A) -> bool)
    requires
        forall|i: int| 0 <= i < s.len() ==> !p(#[trigger] s[i]),
    ensures
        s.filter(p) == Seq::<A>::empty(),
    decreases s.len(),
{
    reveal(Seq::filter);
    if s.len() > 0 {
        lemma_filter_none(s.drop_last(), p);
    }
}

/// Compare two string slices by contents.
pub fn str_eq(a: &str, b: &str) -> (r: bool)
    ensures
        r == (a@ == b@),
{
    let x = a.to_owned();
    let y = b.to_owned();
    x == y
}

/// `s` with every leading and trailing occurrence of `c` removed.
pub open spec fn trimmed(s: Seq<char>, c: char) -> Seq<char>
    decreases s.len(),
{
    if s.len() > 0 && s[0] == c {
        trimmed(s.skip(1), c)
    } else if s.len() > 0 && s[s.len() - 1] == c {
        trimmed(s.take(s.len() - 1), c)
    } else {
        s
    }
}

proof fn lemma_trimmed_bounds(s: Seq<char>, c: char, lo: int, hi: int)
    requires
        0 <= lo <= hi <= s.len(),
        forall|k: int| 0 <= k < lo ==> s[k] == c,
        forall|k: int| hi <= k < s.len() ==> s[k] == c,
        lo < hi ==> s[lo] != c && s[hi - 1] != c,
    ensures
        trimmed(s, c) == s.subrange(lo, hi),
    decreases s.len(),
{
    if lo > 0 {
        assert(s[0] == c);
        lemma_trimmed_bounds(s.skip(1), c, lo - 1, hi - 1);
        assert(s.skip(1).subrange(lo - 1, hi - 1) =~= s.subrange(lo, hi));
    } else if hi < s.len() {
        assert(s[s.len() - 1] == c);
        if s.len() > 0 && s[0] == c {
            assert(lo == 0 && lo < hi ==> s[lo] != c);
            assert(!(lo < hi));
            assert(lo == hi);
            lemma_trimmed_bounds(s.skip(1), c, 0, 0);
            assert(s.skip(1).subrange(0, 0) =~= s.subrange(lo, hi));
        } else {
            lemma_trimmed_bounds(s.take(s.len() - 1), c, lo, hi);
            assert(s.take(s.len() - 1).subrange(lo, hi) =~= s.subrange(lo, hi));
        }
    } else {
        assert(lo == 0 && hi == s.len());
        if s.len() > 0 && s[0] == c {
            assert(lo < hi);
            assert(false);
        }
        if s.len() > 0 && s[s.len() - 1] == c {
            assert(false);
        }
        assert(s.subrange(0, s.len() as int) =~= s);
    }
}

/// Remove every leading and trailing occurrence of `c` from `s`.
pub fn trim_char(s: &str, c: char) -> (r: String)
    ensures
        r@ == trimmed(s@, c),
{
    let n = s.unicode_len();
    let mut lo: usize = 0;
    while lo < n && s.get_char(lo) == c
        invariant
            0 <= lo <= n == s@.len(),
            forall|k: int| 0 <= k < lo ==> s@[k] == c,
        decreases n - lo,
    {
        lo = lo + 1;
    }
    let mut hi: usize = n;
    while hi > lo && s.get_char(hi - 1) == c
        invariant
            lo <= hi <= n == s@.len(),
            forall|k: int| hi <= k < n ==> s@[k] == c,
        decreases hi,
    {
        hi = hi - 1;
    }
    let r = s.substring_char(lo, hi).to_owned();
    proof {
        lemma_trimmed_bounds(s@, c, lo as int, hi as int);
    }
    r
}

/// Whether `s` holds the two-character separator `"::"` anywhere.
pub open spec fn has_double_colon(s: Seq<char>) -> bool {
    exists|p: int| 0 <= p && p + 2 <= s.len() && #[trigger] s[p] == ':' && s[p + 1] == ':'
}

/// Whether `s` holds the character `c` anywhere.
pub open spec fn has_char(s: Seq<char>, c: char) -> bool {
    exists|p: int| 0 <= p < s.len() && #[trigger] s[p] == c
}

/// The part of `s` after the last `"::"`, or all of `s` if there is none.
pub open spec fn after_last_dc(s: Seq<char>) -> Seq<char>
    decreases s.len(),
{
    if !has_double_colon(s) {
        s
    } else if has_double_colon(s.skip(1)) {
        after_last_dc(s.skip(1))
    } else {
        s.skip(2)
    }
}

/// The part of `s` after the last occurrence of `c`, or all of `s` if there
/// is none.
pub open spec fn after_last(s: Seq<char>, c: char) -> Seq<char>
    decreases s.len(),
{
    if !has_char(s, c) {
        s
    } else if has_char(s.skip(1), c) {
        after_last(s.skip(1), c)
    } else {
        s.skip(1)
    }
}

proof fn lemma_after_last_dc_at(s: Seq<char>, p: int)
    requires
        0 <= p && p + 2 <= s.len(),
        s[p] == ':' && s[p + 1] == ':',
        forall|q: int| p < q && q + 2 <= s.len() ==> !(#[trigger] s[q] == ':' && s[q + 1] == ':'),
    ensures
        after_last_dc(s) == s.subrange(p + 2, s.len() as int),
    decreases s.len(),
{
    assert(has_double_colon(s));
    if p >= 1 {
        assert(s.skip(1)[p - 1] == ':' && s.skip(1)[p - 1 + 1] == ':');
        assert(has_double_colon(s.skip(1)));
        assert forall|q: int|
            p - 1 < q && q + 2 <= s.skip(1).len() implies !(#[trigger] s.skip(1)[q] == ':'
            && s.skip(1)[q + 1] == ':') by {
            assert(s.skip(1)[q] == s[q + 1] && s.skip(1)[q + 1] == s[q + 2]);
        }
        lemma_after_last_dc_at(s.skip(1), p - 1);
        assert(s.skip(1).subrange(p + 1, s.skip(1).len() as int) =~= s.subrange(
            p + 2,
            s.len() as int,
        ));
    } else {
        assert(p == 0);
        if has_double_colon(s.skip(1)) {
            let q = choose|q: int|
                0 <= q && q + 2 <= s.skip(1).len() && #[trigger] s.skip(1)[q] == ':' && s.skip(
                    1,
                )[q + 1] == ':';
            assert(s[q + 1] == ':' && s[q + 2] == ':');
            assert(false);
        }
        assert(s.skip(2) =~= s.subrange(2, s.len() as int));
    }
}

proof fn lemma_after_last_at(s: Seq<char>, c: char, p: int)
    requires
        0 <= p < s.len(),
        s[p] == c,
        forall|q: int| p < q < s.len() ==> s[q] != c,
    ensures
        after_last(s, c) == s.subrange(p + 1, s.len() as int),
    decreases s.len(),
{
    assert(has_char(s, c));
    if p >= 1 {
        assert(s.skip(1)[p - 1] == c);
        assert(has_char(s.skip(1), c));
        assert forall|q: int| p - 1 < q < s.skip(1).len() implies s.skip(1)[q] != c by {
            assert(s.skip(1)[q] == s[q + 1]);
        }
        lemma_after_last_at(s.skip(1), c, p - 1);
        assert(s.skip(1).subrange(p, s.skip(1).len() as int) =~= s.subrange(
            p + 1,
            s.len() as int,
        ));
    } else {
        assert(p == 0);
        if has_char(s.skip(1), c) {
            let q = choose|q: int| 0 <= q < s.skip(1).len() && #[trigger] s.skip(1)[q] == c;
            assert(s[q + 1] == c);
            assert(false);
        }
        assert(s.skip(1) =~= s.subrange(1, s.len() as int));
    }
}

/// Return the part of `s` after the last `"::"`, or all of `s` if none.
pub fn after_last_double_colon(s: &str) -> (r: String)
    ensures
        r@ == after_last_dc(s@),
{
    let n = s.unicode_len();
    let mut best: usize = 0;
    let mut found = false;
    let mut i: usize = 0;
    while n - i > 1
        invariant
            0 <= i <= n == s@.len(),
            found ==> best + 2 <= n && s@[best as int] == ':' && s@[best as int + 1] == ':',
            found ==> forall|q: int|
                best < q && q + 2 <= i + 1 ==> !(#[trigger] s@[q] == ':' && s@[q + 1] == ':'),
            !found ==> forall|q: int| 0 <= q && q + 2 <= i + 1 ==> !(#[trigger] s@[q] == ':' && s@[q + 1]
                == ':'),
        decreases n - i,
    {
        if s.get_char(i) == ':' && s.get_char(i + 1) == ':' {
            best = i;
            found = true;
        }
        i = i + 1;
    }
    if found {
        let r = s.substring_char(best + 2, n).to_owned();
        proof {
            lemma_after_last_dc_at(s@, best as int);
        }
        r
    } else {
        proof {
            assert(!has_double_colon(s@));
        }
        s.to_owned()
    }
}

/// Return the part of `s` after the last occurrence of `c`, or all of `s`
/// if none.
pub fn after_last_char(s: &str, c: char) -> (r: String)
    ensures
        r@ == after_last(s@, c),
{
    let n = s.unicode_len();
    let mut best: usize = 0;
    let mut found = false;
    let mut i: usize = 0;
    while i < n
        invariant
            0 <= i <= n == s@.len(),
            found ==> best < n && s@[best as int] == c,
            found ==> forall|q: int| best < q < i ==> s@[q] != c,
            !found ==> forall|q: int| 0 <= q < i ==> s@[q] != c,
        decreases n - i,
    {
        if s.get_char(i) == c {
            best = i;
            found = true;
        }
        i = i + 1;
    }
    if found {
        let r = s.substring_char(best + 1, n).to_owned();
        proof {
            lemma_after_last_at(s@, c, best as int);
        }
        r
    } else {
        proof {
            assert(!has_char(s@, c));
        }
        s.to_owned()
    }
}

/// Whether `s` holds `c` anywhere; the executable side of [`has_char`].
pub fn contains_char(s: &str, c: char) -> (r: bool)
    ensures
        r == has_char(s@, c),
{
    let n = s.unicode_len();
    let mut i: usize = 0;
    while i < n
        invariant
            0 <= i <= n == s@.len(),
            forall|q: int| 0 <= q < i ==> s@[q] != c,
        decreases n - i,
    {
        if s.get_char(i) == c {
            return true;
        }
        i = i + 1;
    }
    false
}

/// Whether `s` holds `"::"` anywhere; the executable side of
/// [`has_double_colon`].
pub fn contains_double_colon(s: &str) -> (r: bool)
    ensures
        r == has_double_colon(s@),
{
    let n = s.unicode_len();
    if n < 2 {
        return false;
    }
    let mut i: usize = 0;
    while n - i > 1
        invariant
            0 <= i <= n == s@.len(),
            forall|q: int| 0 <= q && q + 2 <= i + 1 ==> !(#[trigger] s@[q] == ':' && s@[q + 1] == ':'),
        decreases n - i,
    {
        if s.get_char(i) == ':' && s.get_char(i + 1) == ':' {
            return true;
        }
        i = i + 1;
    }
    false
}

} // verus!
