//! Character-sequence utilities shared by the version and commit parsers.
//!
//! All executable code here works on `Vec<char>`, with contracts stated over
//! the corresponding `Seq<char>` views; strings cross into this form at the
//! crate's public boundary.

use vstd::prelude::*;
use vstd::string::StrSliceExecFns;

verus! {

/// True when `pat` occurs in `s` starting at index `i`.
pub open spec fn has_match_at(s: Seq<char>, pat: Seq<char>, i: int) -> bool {
    0 <= i && i + pat.len() <= s.len() && s.subrange(i, i + pat.len() as int) == pat
}

/// True when `pat` occurs somewhere in `s`.
pub open spec fn contains_seq(s: Seq<char>, pat: Seq<char>) -> bool {
    exists|i: int| has_match_at(s, pat, i)
}

/// Index of the first occurrence of `pat` in `s`, if any.
pub open spec fn first_match(s: Seq<char>, pat: Seq<char>) -> Option<int>
    decreases s.len(),
{
    if pat.len() > s.len() {
        None
    } else if s.take(pat.len() as int) == pat {
        Some(0)
    } else if s.len() == 0 {
        None
    } else {
        match first_match(s.drop_first(), pat) {
            Some(i) => Some(i + 1),
            None => None,
        }
    }
}

/// `first_match` finds exactly the first occurrence: a hit is a match with no
/// earlier match, and a miss means no occurrence at all.
pub proof fn lemma_first_match(s: Seq<char>, pat: Seq<char>)
    ensures
        match first_match(s, pat) {
            Some(i) => {
                &&& has_match_at(s, pat, i)
                &&& forall|j: int| 0 <= j < i ==> !has_match_at(s, pat, j)
            },
            None => !contains_seq(s, pat),
        },
    decreases s.len(),
{
    if pat.len() > s.len() {
        assert forall|j: int| !has_match_at(s, pat, j) by {}
    } else if s.take(pat.len() as int) == pat {
        assert(s.subrange(0, pat.len() as int) =~= s.take(pat.len() as int));
    } else if s.len() == 0 {
        assert(s.take(0) =~= pat);
    } else {
        assert(pat.len() > 0) by {
            if pat.len() == 0 {
                assert(s.take(0) =~= pat);
            }
        }
        lemma_first_match(s.drop_first(), pat);
        assert forall|j: int| 1 <= j && j + pat.len() <= s.len() implies (has_match_at(
            s,
            pat,
            j,
        ) <==> has_match_at(s.drop_first(), pat, j - 1)) by {
            assert(s.subrange(j, j + pat.len() as int) =~= s.drop_first().subrange(
                j - 1,
                j - 1 + pat.len() as int,
            ));
        }
        assert(!has_match_at(s, pat, 0)) by {
            assert(s.subrange(0, pat.len() as int) =~= s.take(pat.len() as int));
        }
        match first_match(s.drop_first(), pat) {
            Some(i) => {
                assert(has_match_at(s, pat, i + 1));
                assert forall|j: int| 0 <= j < i + 1 implies !has_match_at(s, pat, j) by {}
            },
            None => {
                assert forall|j: int| !has_match_at(s, pat, j) by {}
            },
        }
    }
}

/// Converts a string slice to the vector of its characters.
pub fn str_to_chars(s: &str) -> (v: Vec<char>)
    ensures
        v@ == s@,
{
    let n = s.unicode_len();
    let mut v: Vec<char> = Vec::new();
    let mut i: usize = 0;
    while i < n
        invariant
            i <= n,
            n == s@.len(),
            v@ == s@.take(i as int),
        decreases n - i,
    {
        let c = s.get_char(i);
        v.push(c);
        i = i + 1;
        assert(v@ =~= s@.take(i as int));
    }
    assert(v@ =~= s@);
    v
}

/// Relies on `String::push`: appends the given character to the string.
#[verifier::external_body]
fn push_char(s: &mut String, c: char)
    ensures
        final(s)@ == old(s)@.push(c),
{
    s.push(c);
}

/// Builds a string out of a vector of characters.
pub fn chars_to_string(v: &Vec<char>) -> (s: String)
    ensures
        s@ == v@,
{
    let mut s = String::new();
    let mut i: usize = 0;
    while i < v.len()
        invariant
            i <= v@.len(),
            s@ == v@.take(i as int),
        decreases v@.len() - i,
    {
        push_char(&mut s, v[i]);
        i = i + 1;
        assert(s@ =~= v@.take(i as int));
    }
    assert(s@ =~= v@);
    s
}

/// True when the character occurs in the vector.
pub fn contains_char(v: &Vec<char>, c: char) -> (b: bool)
    ensures
        b == v@.contains(c),
{
    let mut i: usize = 0;
    while i < v.len()
        invariant
            i <= v@.len(),
            forall|j: int| 0 <= j < i ==> v@[j] != c,
        decreases v@.len() - i,
    {
        if v[i] == c {
            return true;
        }
        i = i + 1;
    }
    false
}

/// Index of the first occurrence of `c` in `v`, if any.
pub fn find_first_char(v: &Vec<char>, c: char) -> (r: Option<usize>)
    ensures
        match r {
            Some(i) => i < v@.len() && v@[i as int] == c && forall|j: int|
                0 <= j < i ==> v@[j] != c,
            None => !v@.contains(c),
        },
{
    let mut i: usize = 0;
    while i < v.len()
        invariant
            i <= v@.len(),
            forall|j: int| 0 <= j < i ==> v@[j] != c,
        decreases v@.len() - i,
    {
        if v[i] == c {
            return Some(i);
        }
        i = i + 1;
    }
    None
}

/// Index of the last occurrence of `c` in `v`, if any.
pub fn find_last_char(v: &Vec<char>, c: char) -> (r: Option<usize>)
    ensures
        match r {
            Some(i) => i < v@.len() && v@[i as int] == c && forall|j: int|
                i < j < v@.len() ==> v@[j] != c,
            None => !v@.contains(c),
        },
{
    let mut i: usize = v.len();
    while i > 0
        invariant
            i <= v@.len(),
            forall|j: int| i <= j < v@.len() ==> v@[j] != c,
        decreases i,
    {
        i = i - 1;
        if v[i] == c {
            return Some(i);
        }
    }
    None
}

/// True when `pat` occurs in `v` starting at index `i`.
fn match_at(v: &Vec<char>, pat: &Vec<char>, i: usize) -> (b: bool)
    requires
        i + pat@.len() <= v@.len(),
        i + pat@.len() <= usize::MAX,
    ensures
        b == has_match_at(v@, pat@, i as int),
{
    let mut k: usize = 0;
    while k < pat.len()
        invariant
            i + pat@.len() <= v@.len(),
            i + pat@.len() <= usize::MAX,
            k <= pat@.len(),
            forall|j: int| 0 <= j < k ==> v@[i + j] == pat@[j],
        decreases pat@.len() - k,
    {
        if v[i + k] != pat[k] {
            proof {
                assert(v@.subrange(i as int, i + pat@.len() as int)[k as int] == v@[i + k]);
            }
            return false;
        }
        k = k + 1;
    }
    proof {
        assert(v@.subrange(i as int, i + pat@.len() as int) =~= pat@);
    }
    true
}

/// Index of the first occurrence of `pat` in `v`, if any, as `first_match`
/// describes it.
pub fn find_pat(v: &Vec<char>, pat: &Vec<char>) -> (r: Option<usize>)
    ensures
        match r {
            Some(i) => first_match(v@, pat@) == Some(i as int),
            None => first_match(v@, pat@) is None,
        },
{
    proof {
        lemma_first_match(v@, pat@);
    }
    if pat.len() > v.len() {
        return None;
    }
    if pat.len() == 0 {
        proof {
            assert(v@.take(0) =~= pat@);
        }
        return Some(0);
    }
    let last_start = v.len() - pat.len();
    let mut i: usize = 0;
    while i <= last_start
        invariant
            1 <= pat@.len() <= v@.len(),
            v@.len() <= usize::MAX,
            last_start == v@.len() - pat@.len(),
            i <= last_start + 1,
            forall|j: int| 0 <= j < i ==> !has_match_at(v@, pat@, j),
        decreases last_start + 1 - i,
    {
        if match_at(v, pat, i) {
            proof {
                lemma_first_match(v@, pat@);
                match first_match(v@, pat@) {
                    Some(m) => {
                        assert(!(m < i as int)) by {
                            assert(m >= 0);
                        }
                        assert(!(m > i as int));
                    },
                    None => {
                        assert(false);
                    },
                }
            }
            return Some(i);
        }
        i = i + 1;
    }
    proof {
        assert forall|j: int| !has_match_at(v@, pat@, j) by {}
        lemma_first_match(v@, pat@);
    }
    None
}

/// True when `pat` occurs in `v`.
pub fn contains_pat(v: &Vec<char>, pat: &Vec<char>) -> (b: bool)
    ensures
        b == contains_seq(v@, pat@),
{
    proof {
        lemma_first_match(v@, pat@);
    }
    match find_pat(v, pat) {
        Some(_) => true,
        None => false,
    }
}

/// The characters of `s` with every occurrence of `c` removed.
pub open spec fn remove_ch(s: Seq<char>, c: char) -> Seq<char>
    decreases s.len(),
{
    if s.len() == 0 {
        s
    } else if s.last() == c {
        remove_ch(s.drop_last(), c)
    } else {
        remove_ch(s.drop_last(), c).push(s.last())
    }
}

/// The characters of `v` with every occurrence of `c` removed.
pub fn remove_char(v: &Vec<char>, c: char) -> (r: Vec<char>)
    ensures
        r@ == remove_ch(v@, c),
{
    let mut r: Vec<char> = Vec::new();
    let mut i: usize = 0;
    while i < v.len()
        invariant
            i <= v@.len(),
            r@ == remove_ch(v@.take(i as int), c),
        decreases v@.len() - i,
    {
        proof {
            assert(v@.take(i + 1).drop_last() =~= v@.take(i as int));
            assert(v@.take(i + 1).last() == v@[i as int]);
        }
        if v[i] != c {
            r.push(v[i]);
        }
        i = i + 1;
    }
    assert(v@.take(v@.len() as int) =~= v@);
    r
}

/// Length of the longest prefix of `s` that does not contain `sep`.
pub open spec fn prefix_to(s: Seq<char>, sep: char) -> nat
    decreases s.len(),
{
    if s.len() == 0 {
        0
    } else if s[0] == sep {
        0
    } else {
        1 + prefix_to(s.drop_first(), sep)
    }
}

/// `prefix_to` points at the first separator, or at the end of the sequence
/// when there is none.
pub proof fn lemma_prefix_to(s: Seq<char>, sep: char)
    ensures
        prefix_to(s, sep) <= s.len(),
        forall|j: int| 0 <= j < prefix_to(s, sep) ==> s[j] != sep,
        prefix_to(s, sep) < s.len() ==> s[prefix_to(s, sep) as int] == sep,
    decreases s.len(),
{
    if s.len() == 0 {
    } else if s[0] == sep {
    } else {
        lemma_prefix_to(s.drop_first(), sep);
        assert forall|j: int| 0 <= j < prefix_to(s, sep) implies s[j] != sep by {
            if j > 0 {
                assert(s[j] == s.drop_first()[j - 1]);
            }
        }
    }
}

/// The pieces of `s` between occurrences of `sep`; always at least one piece,
/// and one more piece than there are separators.
pub open spec fn split_ch(s: Seq<char>, sep: char) -> Seq<Seq<char>>
    decreases s.len(),
{
    let k = prefix_to(s, sep);
    if k >= s.len() {
        seq![s]
    } else {
        seq![s.take(k as int)] + split_ch(s.skip(k + 1 as int), sep)
    }
}

/// No piece produced by `split_ch` contains the separator.
pub proof fn lemma_split_ch_sep_free(s: Seq<char>, sep: char)
    ensures
        split_ch(s, sep).len() >= 1,
        forall|p: int|
            0 <= p < split_ch(s, sep).len() ==> !(#[trigger] split_ch(s, sep)[p]).contains(sep),
    decreases s.len(),
{
    lemma_prefix_to(s, sep);
    let k = prefix_to(s, sep);
    if k >= s.len() {
        assert(!s.contains(sep));
    } else {
        lemma_split_ch_sep_free(s.skip(k + 1 as int), sep);
        let parts = split_ch(s, sep);
        let rest = split_ch(s.skip(k + 1 as int), sep);
        assert(!s.take(k as int).contains(sep));
        assert forall|p: int| 0 <= p < parts.len() implies !(#[trigger] parts[p]).contains(
            sep,
        ) by {
            if p > 0 {
                assert(parts[p] == rest[p - 1]);
            }
        }
    }
}

/// Splitting a separator-free sequence yields that sequence as the one piece.
pub proof fn lemma_split_ch_whole(s: Seq<char>, sep: char)
    requires
        !s.contains(sep),
    ensures
        split_ch(s, sep) == seq![s],
{
    lemma_prefix_to(s, sep);
}

/// Splits `v` at every occurrence of `sep`.
pub fn split_char(v: &Vec<char>, sep: char) -> (r: Vec<Vec<char>>)
    ensures
        r.deep_view() == split_ch(v@, sep),
{
    let mut r: Vec<Vec<char>> = Vec::new();
    let mut st: usize = 0;
    let mut i: usize = 0;
    proof {
        assert(v@.skip(0) =~= v@);
        assert(r.deep_view() + split_ch(v@, sep) =~~= split_ch(v@, sep));
    }
    while i < v.len()
        invariant
            st <= i <= v@.len(),
            forall|j: int| st <= j < i ==> v@[j] != sep,
            split_ch(v@, sep) == r.deep_view() + split_ch(v@.skip(st as int), sep),
        decreases v@.len() - i,
    {
        if v[i] == sep {
            let piece = subvec(v, st, i);
            proof {
                let tail = v@.skip(st as int);
                lemma_prefix_to(tail, sep);
                assert(tail[i - st] == sep);
                assert(prefix_to(tail, sep) == i - st) by {
                    let k = prefix_to(tail, sep);
                    if k < i - st {
                        assert(tail[k as int] == sep);
                        assert(v@[st + k] == sep);
                    }
                }
                assert(tail.take(i - st) =~= v@.subrange(st as int, i as int));
                assert(tail.skip(i - st + 1) =~= v@.skip(i + 1));
                assert((r.deep_view().push(piece@)) =~~= (r.deep_view() + seq![
                    v@.subrange(st as int, i as int),
                ]));
                assert(split_ch(v@, sep) == r.deep_view().push(piece@) + split_ch(
                    v@.skip(i + 1),
                    sep,
                )) by {
                    assert(r.deep_view() + (seq![tail.take(i - st)] + split_ch(
                        tail.skip(i - st + 1),
                        sep,
                    )) =~= (r.deep_view() + seq![tail.take(i - st)]) + split_ch(
                        tail.skip(i - st + 1),
                        sep,
                    ));
                }
            }
            let ghost old_r = r.deep_view();
            r.push(piece);
            proof {
                assert(r.deep_view() =~~= old_r.push(v@.subrange(st as int, i as int)));
            }
            st = i + 1;
        }
        i = i + 1;
    }
    let last_piece = subvec(v, st, v.len());
    proof {
        let tail = v@.skip(st as int);
        assert(!tail.contains(sep));
        lemma_split_ch_whole(tail, sep);
        assert(tail =~= v@.subrange(st as int, v@.len() as int));
    }
    let ghost old_r = r.deep_view();
    r.push(last_piece);
    proof {
        assert(r.deep_view() =~~= old_r.push(v@.skip(st as int)));
        assert(r.deep_view() =~~= old_r + seq![v@.skip(st as int)]);
    }
    r
}

/// The characters of `v` from `from` (inclusive) to `to` (exclusive).
pub fn subvec(v: &Vec<char>, from: usize, to: usize) -> (r: Vec<char>)
    requires
        from <= to <= v@.len(),
    ensures
        r@ == v@.subrange(from as int, to as int),
{
    let mut r: Vec<char> = Vec::new();
    let mut i: usize = from;
    while i < to
        invariant
            from <= i <= to <= v@.len(),
            r@ == v@.subrange(from as int, i as int),
        decreases to - i,
    {
        r.push(v[i]);
        i = i + 1;
        assert(r@ =~= v@.subrange(from as int, i as int));
    }
    r
}


/// Lexicographic comparison of two character sequences by code point:
/// `-1` when `a` sorts first, `1` when `b` sorts first, `0` when equal.
pub open spec fn lex_cmp(a: Seq<char>, b: Seq<char>) -> int
    decreases a.len(),
{
    if a.len() == 0 && b.len() == 0 {
        0
    } else if a.len() == 0 {
        -1
    } else if b.len() == 0 {
        1
    } else if a[0] < b[0] {
        -1
    } else if b[0] < a[0] {
        1
    } else {
        lex_cmp(a.drop_first(), b.drop_first())
    }
}

/// `lex_cmp` is antisymmetric, and zero exactly on equal sequences.
pub proof fn lemma_lex_cmp_basic(a: Seq<char>, b: Seq<char>)
    ensures
        -1 <= lex_cmp(a, b) <= 1,
        lex_cmp(b, a) == -lex_cmp(a, b),
        lex_cmp(a, b) == 0 <==> a == b,
    decreases a.len(),
{
    if a.len() == 0 && b.len() == 0 {
        assert(a =~= b);
    } else if a.len() == 0 || b.len() == 0 {
    } else if a[0] < b[0] || b[0] < a[0] {
        assert(a != b);
    } else {
        assert(a[0] == b[0]);
        lemma_lex_cmp_basic(a.drop_first(), b.drop_first());
        if lex_cmp(a, b) == 0 {
            assert(a.drop_first() == b.drop_first());
            assert forall|j: int| 0 <= j < a.len() implies a[j] == b[j] by {
                if j > 0 {
                    assert(a.drop_first()[j - 1] == b.drop_first()[j - 1]);
                }
            }
            assert(a =~= b);
        }
        if a == b {
            assert(a.drop_first() =~= b.drop_first());
        }
    }
}

/// `lex_cmp` is transitive, both strictly and weakly.
pub proof fn lemma_lex_cmp_trans(a: Seq<char>, b: Seq<char>, c: Seq<char>)
    ensures
        lex_cmp(a, b) <= 0 && lex_cmp(b, c) <= 0 ==> lex_cmp(a, c) <= 0,
        lex_cmp(a, b) <= 0 && lex_cmp(b, c) < 0 ==> lex_cmp(a, c) < 0,
        lex_cmp(a, b) < 0 && lex_cmp(b, c) <= 0 ==> lex_cmp(a, c) < 0,
    decreases a.len() + b.len() + c.len(),
{
    lemma_lex_cmp_basic(a, b);
    lemma_lex_cmp_basic(b, c);
    lemma_lex_cmp_basic(a, c);
    if a.len() > 0 && b.len() > 0 && c.len() > 0 {
        lemma_lex_cmp_trans(a.drop_first(), b.drop_first(), c.drop_first());
    }
}

/// Index of the last occurrence of `c` in `s`, or `-1` when there is none.
pub open spec fn last_ix(s: Seq<char>, c: char) -> int
    decreases s.len(),
{
    if s.len() == 0 {
        -1
    } else if s.last() == c {
        s.len() - 1
    } else {
        last_ix(s.drop_last(), c)
    }
}

/// `last_ix` points at the last occurrence, or at `-1` when there is none.
pub proof fn lemma_last_ix(s: Seq<char>, c: char)
    ensures
        s.contains(c) ==> {
            &&& 0 <= last_ix(s, c) < s.len()
            &&& s[last_ix(s, c)] == c
            &&& forall|j: int| last_ix(s, c) < j < s.len() ==> s[j] != c
        },
        !s.contains(c) ==> last_ix(s, c) == -1,
    decreases s.len(),
{
    if s.len() > 0 && s.last() != c {
        lemma_last_ix(s.drop_last(), c);
        assert forall|j: int| 0 <= j < s.len() - 1 implies s[j] == s.drop_last()[j] by {}
        if s.contains(c) {
            let w = choose|i: int| 0 <= i < s.len() && s[i] == c;
            assert(s.drop_last()[w] == c);
            assert(s.drop_last().contains(c));
        }
    }
}

/// A copy of a vector of strings, contents preserved exactly.
pub fn clone_string_vec(v: &Vec<String>) -> (r: Vec<String>)
    ensures
        r@ == v@,
{
    let mut r: Vec<String> = Vec::new();
    let mut i: usize = 0;
    while i < v.len()
        invariant
            i <= v@.len(),
            r@ == v@.take(i as int),
        decreases v@.len() - i,
    {
        r.push(v[i].clone());
        i = i + 1;
        assert(r@ =~= v@.take(i as int));
    }
    assert(r@ =~= v@);
    r
}

/// True when the two vectors hold the same characters in the same order.
pub fn chars_eq(a: &Vec<char>, b: &Vec<char>) -> (r: bool)
    ensures
        r == (a@ == b@),
{
    proof {
        lemma_lex_cmp_basic(a@, b@);
    }
    lex_compare(a, b) == 0
}

/// Lexicographic comparison of two character vectors, as `lex_cmp` describes.
pub fn lex_compare(a: &Vec<char>, b: &Vec<char>) -> (r: i8)
    ensures
        r as int == lex_cmp(a@, b@),
        -1 <= r <= 1,
{
    proof {
        lemma_lex_cmp_basic(a@, b@);
        assert(a@.skip(0) =~= a@);
        assert(b@.skip(0) =~= b@);
    }
    let mut i: usize = 0;
    while i < a.len() && i < b.len()
        invariant
            i <= a@.len(),
            i <= b@.len(),
            lex_cmp(a@, b@) == lex_cmp(a@.skip(i as int), b@.skip(i as int)),
            -1 <= lex_cmp(a@, b@) <= 1,
        decreases a@.len() - i,
    {
        let ca = a[i];
        let cb = b[i];
        if ca < cb {
            proof {
                assert(a@.skip(i as int)[0] == ca && b@.skip(i as int)[0] == cb);
            }
            return -1;
        }
        if cb < ca {
            proof {
                assert(a@.skip(i as int)[0] == ca && b@.skip(i as int)[0] == cb);
            }
            return 1;
        }
        proof {
            assert(a@.skip(i as int)[0] == ca && b@.skip(i as int)[0] == cb);
            assert(a@.skip(i as int).drop_first() =~= a@.skip(i + 1));
            assert(b@.skip(i as int).drop_first() =~= b@.skip(i + 1));
        }
        i = i + 1;
    }
    if a.len() == b.len() {
        proof {
            assert(a@.skip(i as int).len() == 0 && b@.skip(i as int).len() == 0);
        }
        0
    } else if a.len() < b.len() {
        proof {
            assert(a@.skip(i as int).len() == 0 && b@.skip(i as int).len() > 0);
        }
        -1
    } else {
        proof {
            assert(b@.skip(i as int).len() == 0 && a@.skip(i as int).len() > 0);
        }
        1
    }
}


/// The pieces of `s` between occurrences of the non-empty pattern `pat`.
pub open spec fn split_pat(s: Seq<char>, pat: Seq<char>) -> Seq<Seq<char>>
    decreases s.len() when pat.len() > 0 via split_pat_dec
{
    match first_match(s, pat) {
        None => seq![s],
        Some(i) => seq![s.take(i)] + split_pat(s.skip(i + pat.len() as int), pat),
    }
}

#[via_fn]
proof fn split_pat_dec(s: Seq<char>, pat: Seq<char>) {
    lemma_first_match(s, pat);
}

/// Splits `v` at every occurrence of the pattern `pat`.
pub fn split_pattern(v: &Vec<char>, pat: &Vec<char>) -> (r: Vec<Vec<char>>)
    requires
        pat@.len() > 0,
    ensures
        r.deep_view() == split_pat(v@, pat@),
{
    let mut r: Vec<Vec<char>> = Vec::new();
    let mut remaining = subvec(v, 0, v.len());
    let mut done = false;
    proof {
        assert(remaining@ =~= v@);
        assert(r.deep_view() + split_pat(v@, pat@) =~~= split_pat(v@, pat@));
    }
    while !done
        invariant
            pat@.len() > 0,
            !done ==> split_pat(v@, pat@) == r.deep_view() + split_pat(remaining@, pat@),
            done ==> r.deep_view() == split_pat(v@, pat@),
        decreases remaining@.len(), if done { 0int } else { 1int },
    {
        let ghost old_r = r.deep_view();
        let ghost old_rem = remaining@;
        match find_pat(&remaining, pat) {
            Some(i) => {
                proof {
                    lemma_first_match(old_rem, pat@);
                }
                let rl = remaining.len();
                let piece = subvec(&remaining, 0, i);
                let next = subvec(&remaining, i + pat.len(), rl);
                proof {
                    assert(piece@ =~= old_rem.take(i as int));
                    assert(next@ =~= old_rem.skip(i + pat@.len() as int));
                }
                r.push(piece);
                remaining = next;
                proof {
                    assert(r.deep_view() =~~= old_r.push(old_rem.take(i as int)));
                    assert(old_r + (seq![old_rem.take(i as int)] + split_pat(remaining@, pat@))
                        =~~= (old_r.push(old_rem.take(i as int))) + split_pat(
                        remaining@,
                        pat@,
                    ));
                }
            },
            None => {
                let piece = subvec(&remaining, 0, remaining.len());
                proof {
                    assert(piece@ =~= old_rem);
                }
                r.push(piece);
                done = true;
                proof {
                    assert(r.deep_view() =~~= old_r.push(old_rem));
                    assert(old_r + seq![old_rem] =~~= old_r.push(old_rem));
                }
            },
        }
    }
    r
}

} // verus!
