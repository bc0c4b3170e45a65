//! Verified building blocks for the filename conventions: substring search,
//! lexicographic string comparison, and decimal formatting of identifiers.
use vstd::prelude::*;
use vstd::string::*;

verus! {

/// The pattern `p` occurs in `s` starting exactly at index `i`.
pub open spec fn match_at(s: Seq<char>, p: Seq<char>, i: int) -> bool {
    0 <= i && i + p.len() <= s.len() && s.subrange(i, i + p.len() as int) == p
}

/// The pattern `p` occurs somewhere in `s`.
pub open spec fn contains_seq(s: Seq<char>, p: Seq<char>) -> bool {
    exists|i: int| match_at(s, p, i)
}

/// The pattern `p` occurs at `i` and nowhere earlier.
pub open spec fn is_first_match(s: Seq<char>, p: Seq<char>, i: int) -> bool {
    &&& match_at(s, p, i)
    &&& forall|j: int| 0 <= j < i ==> !match_at(s, p, j)
}

/// Finds the first occurrence of `p` in `s`, by characters.
pub fn find_sub(s: &str, p: &str) -> (r: Option<usize>)
    ensures
        match r {
            Some(i) => is_first_match(s@, p@, i as int),
            None => !contains_seq(s@, p@),
        },
{
    let n = s.unicode_len();
    let m = p.unicode_len();
    if m > n {
        assert(forall|i: int| !match_at(s@, p@, i));
        return None;
    }
    if m == 0 {
        assert(s@.subrange(0, 0) =~= p@);
        return Some(0);
    }
    let mut i: usize = 0;
    while i <= n - m
        invariant
            1 <= m <= n,
            n == s@.len(),
            m == p@.len(),
            i <= n - m + 1,
            forall|k: int| 0 <= k < i ==> !match_at(s@, p@, k),
        decreases n - m - i + 1,
    {
        let mut j: usize = 0;
        let mut mismatch = false;
        while j < m
            invariant
                m <= n,
                n == s@.len(),
                m == p@.len(),
                i <= n - m,
                j <= m,
                !mismatch ==> forall|k: int| 0 <= k < j ==> s@[i + k] == p@[k],
                mismatch ==> !match_at(s@, p@, i as int),
            decreases m - j,
        {
            if s.get_char(i + j) != p.get_char(j) {
                proof {
                    let ii = i as int;
                    if match_at(s@, p@, ii) {
                        assert(s@.subrange(ii, ii + m)[j as int] == s@[ii + j]);
                    }
                }
                mismatch = true;
                j = m;
            } else {
                j = j + 1;
            }
        }
        if !mismatch {
            proof {
                let ii = i as int;
                assert(s@.subrange(ii, ii + m) =~= p@);
            }
            return Some(i);
        }
        i = i + 1;
    }
    proof {
        assert forall|k: int| !match_at(s@, p@, k) by {
            if 0 <= k < i {
            } else if k >= i {
                assert(k + p@.len() > s@.len());
            }
        }
    }
    None
}

/// Whether `s` contains `p` as a substring.
pub fn contains_sub(s: &str, p: &str) -> (r: bool)
    ensures
        r == contains_seq(s@, p@),
{
    find_sub(s, p).is_some()
}

/// Whether `s` begins with the pattern `p`.
pub open spec fn starts_with_seq(s: Seq<char>, p: Seq<char>) -> bool {
    match_at(s, p, 0)
}

/// Whether `s` begins with `p`, by characters.
pub fn starts_with_sub(s: &str, p: &str) -> (r: bool)
    ensures
        r == starts_with_seq(s@, p@),
{
    let n = s.unicode_len();
    let m = p.unicode_len();
    if m > n {
        return false;
    }
    let mut j: usize = 0;
    while j < m
        invariant
            m <= n,
            n == s@.len(),
            m == p@.len(),
            j <= m,
            forall|k: int| 0 <= k < j ==> s@[k] == p@[k],
        decreases m - j,
    {
        if s.get_char(j) != p.get_char(j) {
            proof {
                if match_at(s@, p@, 0) {
                    assert(s@.subrange(0, m as int)[j as int] == s@[j as int]);
                }
            }
            return false;
        }
        j = j + 1;
    }
    proof {
        assert(s@.subrange(0, m as int) =~= p@);
    }
    true
}

/// Whether two strings hold the same characters.
pub fn str_eq(a: &str, b: &str) -> (r: bool)
    ensures
        r == (a@ == b@),
{
    let r = a.unicode_len() == b.unicode_len() && starts_with_sub(a, b);
    proof {
        if a@ == b@ {
            assert(a@.subrange(0, b@.len() as int) =~= b@);
        }
        if a@.len() == b@.len() && starts_with_seq(a@, b@) {
            assert(a@.subrange(0, b@.len() as int) =~= a@);
        }
    }
    r
}

/// One candidate position `i` establishing that `a` is lexicographically
/// smaller than `b`: the two agree strictly before `i`, and at `i` either `a`
/// ends while `b` goes on, or `a` holds the smaller code point.
pub open spec fn lex_lt_at(a: Seq<char>, b: Seq<char>, i: int) -> bool {
    &&& 0 <= i <= a.len()
    &&& i <= b.len()
    &&& a.subrange(0, i) == b.subrange(0, i)
    &&& ((i == a.len() && i < b.len()) || (i < a.len() && i < b.len() && (a[i] as u32) < (
    b[i] as u32)))
}

/// Strict lexicographic order on character sequences, by code point: the order
/// `Ord` on Rust strings realizes.
pub open spec fn lex_lt(a: Seq<char>, b: Seq<char>) -> bool {
    exists|i: int| lex_lt_at(a, b, i)
}

proof fn lemma_prefix_forces_agreement(a: Seq<char>, b: Seq<char>, j: int, ii: int)
    requires
        0 <= ii < j,
        j <= a.len(),
        j <= b.len(),
        a[ii] != b[ii],
    ensures
        a.subrange(0, j) != b.subrange(0, j),
{
    assert(a.subrange(0, j)[ii] == a[ii]);
    assert(b.subrange(0, j)[ii] == b[ii]);
}

/// Compares two strings lexicographically by code point.
pub fn str_lt(a: &str, b: &str) -> (r: bool)
    ensures
        r == lex_lt(a@, b@),
{
    let an = a.unicode_len();
    let bn = b.unicode_len();
    let mut i: usize = 0;
    loop
        invariant
            an == a@.len(),
            bn == b@.len(),
            i <= an,
            i <= bn,
            forall|k: int| 0 <= k < i ==> a@[k] == b@[k],
        decreases an - i,
    {
        let ghost ii = i as int;
        if i == an || i == bn {
            proof {
                if i == an && i < bn {
                    assert(a@.subrange(0, ii) =~= b@.subrange(0, ii));
                    assert(lex_lt_at(a@, b@, ii));
                } else {
                    // `b` has ended: every candidate position fails.
                    assert forall|j: int| !lex_lt_at(a@, b@, j) by {
                        if 0 <= j < ii {
                            assert(a@[j] == b@[j]);
                        }
                    }
                }
            }
            return i == an && i < bn;
        }
        let ca = a.get_char(i);
        let cb = b.get_char(i);
        if ca != cb {
            proof {
                assert(a@.subrange(0, ii) =~= b@.subrange(0, ii));
                if (ca as u32) < (cb as u32) {
                    assert(lex_lt_at(a@, b@, ii));
                } else {
                    assert forall|j: int| !lex_lt_at(a@, b@, j) by {
                        if 0 <= j < ii {
                            assert(a@[j] == b@[j]);
                        } else if ii < j && j <= a@.len() && j <= b@.len() {
                            lemma_prefix_forces_agreement(a@, b@, j, ii);
                        }
                    }
                }
            }
            return (ca as u32) < (cb as u32);
        }
        i = i + 1;
    }
}

} // verus!
