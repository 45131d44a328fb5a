//! Verified text search primitives.
//!
//! The link extractor scans documents by the position of a literal marker,
//! a delimiter character, and the quote that closes a candidate token.
//! This module gives those scans exact specifications: a first-occurrence
//! search for a character and for a substring, and a split on a delimiter
//! character.

use vstd::prelude::*;

verus! {

/// `sub` occurs in `s` at position `i`.
pub open spec fn contains_at(s: Seq<char>, i: int, sub: Seq<char>) -> bool {
    &&& 0 <= i
    &&& i + sub.len() <= s.len()
    &&& s.subrange(i, i + sub.len() as int) == sub
}

/// `sub` occurs somewhere in `s`.
pub open spec fn has_substring(s: Seq<char>, sub: Seq<char>) -> bool {
    exists|i: int| contains_at(s, i, sub)
}

/// Position of the first occurrence of the character `c` in `s`.
pub open spec fn find_char_at(s: Seq<char>, c: char) -> Option<int>
    decreases s.len(),
{
    if s.len() == 0 {
        None
    } else if s[0] == c {
        Some(0)
    } else {
        match find_char_at(s.drop_first(), c) {
            Some(i) => Some(i + 1),
            None => None,
        }
    }
}

/// Position of the first occurrence of `sub` in `s`; `Some(0)` when `sub`
/// is empty.
pub open spec fn find_sub_at(s: Seq<char>, sub: Seq<char>) -> Option<int>
    decreases s.len(),
{
    if sub.len() == 0 {
        Some(0)
    } else if s.len() < sub.len() {
        None
    } else if s.subrange(0, sub.len() as int) == sub {
        Some(0)
    } else {
        match find_sub_at(s.drop_first(), sub) {
            Some(i) => Some(i + 1),
            None => None,
        }
    }
}

/// `find_char_at` returns the first position that holds `c`, and `None`
/// only when `c` is absent.
pub proof fn lemma_find_char_at(s: Seq<char>, c: char)
    ensures
        match find_char_at(s, c) {
            Some(i) => 0 <= i < s.len() && s[i] == c && (forall|j: int|
                0 <= j < i ==> s[j] != c),
            None => forall|j: int| 0 <= j < s.len() ==> s[j] != c,
        },
    decreases s.len(),
{
    if s.len() == 0 {
    } else if s[0] == c {
    } else {
        lemma_find_char_at(s.drop_first(), c);
        let d = s.drop_first();
        match find_char_at(d, c) {
            Some(i) => {
                assert(s[i + 1] == d[i]);
                assert forall|j: int| 0 <= j < i + 1 implies s[j] != c by {
                    if j >= 1 {
                        assert(s[j] == d[j - 1]);
                    }
                }
            },
            None => {
                assert forall|j: int| 0 <= j < s.len() implies s[j] != c by {
                    if j >= 1 {
                        assert(s[j] == d[j - 1]);
                    }
                }
            },
        }
    }
}

/// `sub` occurs in `s.drop_first()` at `j` exactly when it occurs in `s`
/// at `j + 1`.
proof fn lemma_contains_at_shift(s: Seq<char>, sub: Seq<char>, j: int)
    requires
        s.len() > 0,
        0 <= j,
    ensures
        contains_at(s.drop_first(), j, sub) <==> contains_at(s, j + 1, sub),
{
    let m = sub.len() as int;
    if 0 <= j && j + m <= s.len() - 1 {
        assert(s.drop_first().subrange(j, j + m) =~= s.subrange(j + 1, j + 1 + m));
    }
}

/// `find_sub_at` returns the first position where `sub` occurs, and `None`
/// only when `sub` occurs nowhere.
pub proof fn lemma_find_sub_at(s: Seq<char>, sub: Seq<char>)
    ensures
        match find_sub_at(s, sub) {
            Some(i) => contains_at(s, i, sub) && (forall|j: int|
                0 <= j < i ==> !contains_at(s, j, sub)),
            None => forall|j: int| !contains_at(s, j, sub),
        },
    decreases s.len(),
{
    if sub.len() == 0 {
        assert(s.subrange(0, 0) =~= sub);
    } else if s.len() < sub.len() {
        assert forall|j: int| !contains_at(s, j, sub) by {}
    } else if s.subrange(0, sub.len() as int) == sub {
    } else {
        lemma_find_sub_at(s.drop_first(), sub);
        assert forall|j: int| contains_at(s, j, sub) implies j >= 1 && contains_at(
            s.drop_first(),
            j - 1,
            sub,
        ) by {
            if j == 0 {
                assert(false);
            } else {
                lemma_contains_at_shift(s, sub, j - 1);
            }
        }
        assert forall|j: int| contains_at(s.drop_first(), j, sub) implies contains_at(
            s,
            j + 1,
            sub,
        ) by {
            lemma_contains_at_shift(s, sub, j);
        }
    }
}

/// First occurrence of the character `c` in `s`, by position.
pub fn find_char(s: &str, c: char) -> (r: Option<usize>)
    ensures
        match r {
            Some(i) => find_char_at(s@, c) == Some(i as int),
            None => find_char_at(s@, c) is None,
        },
{
    let n: usize = s.unicode_len();
    let mut i: usize = 0;
    while i < n
        invariant
            n == s@.len(),
            0 <= i <= n,
            forall|j: int| 0 <= j < i ==> s@[j] != c,
        decreases n - i,
    {
        if s.get_char(i) == c {
            proof {
                lemma_find_char_at(s@, c);
                match find_char_at(s@, c) {
                    Some(k) => {
                        if k < i as int {
                            assert(s@[k] != c);
                        }
                        if k > i as int {
                            assert(s@[i as int] != c);
                        }
                    },
                    None => {
                        assert(s@[i as int] != c);
                    },
                }
            }
            return Some(i);
        }
        i += 1;
    }
    proof {
        lemma_find_char_at(s@, c);
    }
    None
}

/// Whether `sub` occurs in `s` at position `i`.
fn match_at(s: &str, sub: &str, i: usize) -> (r: bool)
    requires
        i + sub@.len() <= s@.len(),
    ensures
        r == contains_at(s@, i as int, sub@),
{
    let n: usize = s.unicode_len();
    let m: usize = sub.unicode_len();
    let mut k: usize = 0;
    while k < m
        invariant
            n == s@.len(),
            m == sub@.len(),
            i + m <= s@.len(),
            0 <= k <= m,
            forall|t: int| 0 <= t < k ==> s@[i + t] == sub@[t],
        decreases m - k,
    {
        if s.get_char(i + k) != sub.get_char(k) {
            proof {
                if contains_at(s@, i as int, sub@) {
                    assert(s@.subrange(i as int, i + m)[k as int] == sub@[k as int]);
                }
            }
            return false;
        }
        k += 1;
    }
    proof {
        assert(s@.subrange(i as int, i + m as int) =~= sub@);
    }
    true
}

/// First occurrence of `sub` in `s`, by position.
pub fn find_sub(s: &str, sub: &str) -> (r: Option<usize>)
    ensures
        match r {
            Some(i) => find_sub_at(s@, sub@) == Some(i as int),
            None => find_sub_at(s@, sub@) is None,
        },
{
    let n: usize = s.unicode_len();
    let m: usize = sub.unicode_len();
    if m == 0 {
        proof {
            lemma_find_sub_at(s@, sub@);
        }
        return Some(0);
    }
    if n < m {
        proof {
            lemma_find_sub_at(s@, sub@);
        }
        return None;
    }
    let mut i: usize = 0;
    while i <= n - m
        invariant
            n == s@.len(),
            m == sub@.len(),
            1 <= m <= n,
            0 <= i <= n - m + 1,
            forall|j: int| 0 <= j < i ==> !contains_at(s@, j, sub@),
        decreases n - m + 1 - i,
    {
        if match_at(s, sub, i) {
            proof {
                lemma_find_sub_at(s@, sub@);
                match find_sub_at(s@, sub@) {
                    Some(p) => {
                        if p < i as int {
                            assert(!contains_at(s@, p, sub@));
                        }
                        if p > i as int {
                            assert(!contains_at(s@, i as int, sub@));
                        }
                    },
                    None => {
                        assert(!contains_at(s@, i as int, sub@));
                    },
                }
            }
            return Some(i);
        }
        i += 1;
    }
    proof {
        assert forall|j: int| !contains_at(s@, j, sub@) by {
            if 0 <= j <= n - m {
                assert(!contains_at(s@, j, sub@));
            }
        }
        lemma_find_sub_at(s@, sub@);
    }
    None
}

/// Whether `sub` occurs in `s`.
pub fn contains_sub(s: &str, sub: &str) -> (r: bool)
    ensures
        r == has_substring(s@, sub@),
{
    proof {
        lemma_find_sub_at(s@, sub@);
    }
    match find_sub(s, sub) {
        Some(_) => true,
        None => false,
    }
}

/// The pieces of `s` between occurrences of the delimiter `c`; the
/// delimiter itself belongs to no piece, and a trailing or leading
/// delimiter yields an empty piece.
pub open spec fn split_at_char(s: Seq<char>, c: char) -> Seq<Seq<char>>
    decreases s.len(),
    via split_at_char_decreases
{
    match find_char_at(s, c) {
        None => seq![s],
        Some(i) => seq![s.take(i)] + split_at_char(s.skip(i + 1), c),
    }
}

#[via_fn]
proof fn split_at_char_decreases(s: Seq<char>, c: char) {
    lemma_find_char_at(s, c);
}

/// Splits `s` on the delimiter character `c`.
pub fn split_on(s: &str, c: char) -> (r: Vec<String>)
    ensures
        r.deep_view() == split_at_char(s@, c),
{
    let mut r: Vec<String> = Vec::new();
    let mut cur: &str = s;
    loop
        invariant
            split_at_char(s@, c) =~~= r.deep_view() + split_at_char(cur@, c),
        decreases cur@.len(),
    {
        proof {
            lemma_find_char_at(cur@, c);
        }
        let ghost prev: Seq<Seq<char>> = r.deep_view();
        match find_char(cur, c) {
            Some(i) => {
                let piece: &str = cur.substring_char(0, i);
                r.push(String::from_str(piece));
                let len: usize = cur.unicode_len();
                let next: &str = cur.substring_char(i + 1, len);
                proof {
                    assert(cur@.subrange(0, i as int) =~= cur@.take(i as int));
                    assert(next@ =~= cur@.skip(i + 1));
                    assert(r.deep_view() =~~= prev.push(cur@.take(i as int)));
                    assert(prev + split_at_char(cur@, c) =~~= r.deep_view() + split_at_char(
                        next@,
                        c,
                    ));
                }
                cur = next;
            },
            None => {
                r.push(String::from_str(cur));
                proof {
                    assert(r.deep_view() =~~= prev.push(cur@));
                    assert(split_at_char(s@, c) =~~= r.deep_view());
                }
                return r;
            },
        }
    }
}

} // verus!
