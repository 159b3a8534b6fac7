//! Verified text utilities.
//!
//! Names and commands in this library are compared, folded for case,
//! searched for substrings and concatenated; each operation here is exact
//! over the character-sequence views. Case folding is ASCII: letters `A`
//! through `Z` fold onto their lower-case forms and every other character
//! stands for itself.

use vstd::prelude::*;
use vstd::string::StrSliceExecFns;
use vstd::string::StringExecFns;

verus! {

/// The case-folded code point of a character.
pub open spec fn fold_char(c: char) -> u32 {
    if 65 <= c as u32 && c as u32 <= 90 {
        (c as u32 + 32) as u32
    } else {
        c as u32
    }
}

/// Case-insensitive equality of two character sequences.
pub open spec fn fold_eq(a: Seq<char>, b: Seq<char>) -> bool {
    a.len() == b.len() && forall|i: int|
        0 <= i < a.len() ==> fold_char(a[i]) == fold_char(#[trigger] b[i])
}

/// Case-insensitive strict lexicographic order on character sequences.
pub open spec fn ci_lt(a: Seq<char>, b: Seq<char>) -> bool
    decreases a.len(),
{
    if b.len() == 0 {
        false
    } else if a.len() == 0 {
        true
    } else if fold_char(a[0]) != fold_char(b[0]) {
        fold_char(a[0]) < fold_char(b[0])
    } else {
        ci_lt(a.drop_first(), b.drop_first())
    }
}

/// The character-sequence views of a sequence of strings.
pub open spec fn str_views(v: Seq<String>) -> Seq<Seq<char>> {
    Seq::new(v.len(), |i: int| v[i]@)
}

/// `s` ends in `suffix`.
pub open spec fn has_suffix(s: Seq<char>, suffix: Seq<char>) -> bool {
    suffix.len() <= s.len() && s.subrange(s.len() - suffix.len(), s.len() as int) == suffix
}

/// `pattern` occurs somewhere in `s` as a contiguous run.
pub open spec fn contains_seq(s: Seq<char>, pattern: Seq<char>) -> bool {
    exists|k: int|
        0 <= k <= s.len() - pattern.len() && #[trigger] s.subrange(k, k + pattern.len())
            == pattern
}

fn fold_char_exec(c: char) -> (r: u32)
    ensures
        r == fold_char(c),
{
    let v = c as u32;
    if 65 <= v && v <= 90 {
        v + 32
    } else {
        v
    }
}

/// Exact string equality.
pub fn str_eq(a: &str, b: &str) -> (r: bool)
    ensures
        r == (a@ == b@),
{
    let n = a.unicode_len();
    let m = b.unicode_len();
    if n != m {
        return false;
    }
    let mut i: usize = 0;
    while i < n
        invariant
            0 <= i <= n,
            n == a@.len(),
            n == b@.len(),
            forall|j: int| 0 <= j < i ==> a@[j] == #[trigger] b@[j],
        decreases n - i,
    {
        if a.get_char(i) != b.get_char(i) {
            return false;
        }
        i = i + 1;
    }
    proof {
        assert(a@ =~= b@);
    }
    true
}

/// Case-insensitive string equality.
pub fn str_eq_fold(a: &str, b: &str) -> (r: bool)
    ensures
        r == fold_eq(a@, b@),
{
    let n = a.unicode_len();
    let m = b.unicode_len();
    if n != m {
        return false;
    }
    let mut i: usize = 0;
    while i < n
        invariant
            0 <= i <= n,
            n == a@.len(),
            n == b@.len(),
            forall|j: int| 0 <= j < i ==> fold_char(a@[j]) == fold_char(#[trigger] b@[j]),
        decreases n - i,
    {
        if fold_char_exec(a.get_char(i)) != fold_char_exec(b.get_char(i)) {
            return false;
        }
        i = i + 1;
    }
    true
}

/// Case-insensitive strict order, as the tree listing sorts names.
pub fn str_lt_fold(a: &str, b: &str) -> (r: bool)
    ensures
        r == ci_lt(a@, b@),
{
    let n = a.unicode_len();
    let m = b.unicode_len();
    proof {
        assert(a@.skip(0) =~= a@);
        assert(b@.skip(0) =~= b@);
    }
    let mut i: usize = 0;
    while i < n && i < m
        invariant
            0 <= i <= n,
            0 <= i <= m,
            n == a@.len(),
            m == b@.len(),
            ci_lt(a@, b@) == ci_lt(a@.skip(i as int), b@.skip(i as int)),
        decreases n - i,
    {
        let fa = fold_char_exec(a.get_char(i));
        let fb = fold_char_exec(b.get_char(i));
        proof {
            assert(a@.skip(i as int)[0] == a@[i as int]);
            assert(b@.skip(i as int)[0] == b@[i as int]);
            assert(a@.skip(i as int).drop_first() =~= a@.skip(i as int + 1));
            assert(b@.skip(i as int).drop_first() =~= b@.skip(i as int + 1));
        }
        if fa != fb {
            return fa < fb;
        }
        proof {
            assert(ci_lt(a@.skip(i as int), b@.skip(i as int)) == ci_lt(
                a@.skip(i as int + 1),
                b@.skip(i as int + 1),
            ));
        }
        i = i + 1;
    }
    proof {
        assert(a@.skip(i as int).len() == n - i);
        assert(b@.skip(i as int).len() == m - i);
        if i == n && n < m {
            assert(ci_lt(a@.skip(i as int), b@.skip(i as int)));
        } else {
            assert(!ci_lt(a@.skip(i as int), b@.skip(i as int)));
        }
    }
    n < m
}

/// `s` ends in `suffix`.
pub fn ends_with_str(s: &str, suffix: &str) -> (r: bool)
    ensures
        r == has_suffix(s@, suffix@),
{
    let n = s.unicode_len();
    let m = suffix.unicode_len();
    if m > n {
        return false;
    }
    let off = n - m;
    let mut i: usize = 0;
    while i < m
        invariant
            0 <= i <= m,
            m <= n,
            off == n - m,
            n == s@.len(),
            m == suffix@.len(),
            forall|j: int| 0 <= j < i ==> s@[off + j] == #[trigger] suffix@[j],
        decreases m - i,
    {
        if s.get_char(off + i) != suffix.get_char(i) {
            proof {
                assert(s@.subrange(n - m, n as int)[i as int] != suffix@[i as int]);
            }
            return false;
        }
        i = i + 1;
    }
    proof {
        assert(s@.subrange(n - m, n as int) =~= suffix@);
    }
    true
}

fn matches_at(s: &str, pattern: &str, k: usize) -> (r: bool)
    requires
        k + pattern@.len() <= s@.len(),
    ensures
        r == (s@.subrange(k as int, k + pattern@.len()) == pattern@),
{
    let n = s.unicode_len();
    let m = pattern.unicode_len();
    let mut i: usize = 0;
    while i < m
        invariant
            0 <= i <= m,
            m == pattern@.len(),
            n == s@.len(),
            k + m <= n,
            forall|j: int| 0 <= j < i ==> s@[k + j] == #[trigger] pattern@[j],
        decreases m - i,
    {
        if s.get_char(k + i) != pattern.get_char(i) {
            proof {
                assert(s@.subrange(k as int, k + pattern@.len())[i as int] != pattern@[i as int]);
            }
            return false;
        }
        i = i + 1;
    }
    proof {
        assert(s@.subrange(k as int, k + pattern@.len()) =~= pattern@);
    }
    true
}

/// Substring search, as the ignore list is matched against entry names.
pub fn contains_str(s: &str, pattern: &str) -> (r: bool)
    ensures
        r == contains_seq(s@, pattern@),
{
    let n = s.unicode_len();
    let m = pattern.unicode_len();
    if m > n {
        return false;
    }
    if m == 0 {
        proof {
            assert(s@.subrange(0, 0 + pattern@.len() as int) =~= pattern@);
        }
        return true;
    }
    let mut k: usize = 0;
    while k <= n - m
        invariant
            0 <= k <= n - m + 1,
            1 <= m <= n,
            n == s@.len(),
            m == pattern@.len(),
            forall|k2: int|
                0 <= k2 < k ==> #[trigger] s@.subrange(k2, k2 + pattern@.len()) != pattern@,
        decreases n - m - k + 1,
    {
        if matches_at(s, pattern, k) {
            return true;
        }
        k = k + 1;
    }
    false
}

/// Concatenation of two strings.
pub fn concat2(a: &str, b: &str) -> (r: String)
    ensures
        r@ == a@ + b@,
{
    let mut s = a.to_owned();
    s.append(b);
    s
}

/// Concatenation of three strings.
pub fn concat3(a: &str, b: &str, c: &str) -> (r: String)
    ensures
        r@ == a@ + b@ + c@,
{
    let mut s = a.to_owned();
    s.append(b);
    s.append(c);
    s
}

/// Two sequences that fold equal are the same length and fold alike at
/// every position; under the folded order neither comes before the other.
pub proof fn lemma_ci_lt_congruent(a: Seq<char>, b: Seq<char>, a2: Seq<char>, b2: Seq<char>)
    requires
        fold_eq(a, a2),
        fold_eq(b, b2),
    ensures
        ci_lt(a, b) == ci_lt(a2, b2),
    decreases a.len(),
{
    if b.len() == 0 || a.len() == 0 {
    } else if fold_char(a[0]) != fold_char(b[0]) {
    } else {
        assert(fold_eq(a.drop_first(), a2.drop_first())) by {
            assert(forall|i: int|
                0 <= i < a.drop_first().len() ==> a.drop_first()[i] == a[i + 1]
                    && #[trigger] a2.drop_first()[i] == a2[i + 1]);
        }
        assert(fold_eq(b.drop_first(), b2.drop_first())) by {
            assert(forall|i: int|
                0 <= i < b.drop_first().len() ==> b.drop_first()[i] == b[i + 1]
                    && #[trigger] b2.drop_first()[i] == b2[i + 1]);
        }
        lemma_ci_lt_congruent(a.drop_first(), b.drop_first(), a2.drop_first(), b2.drop_first());
    }
}

/// The folded order never holds in both directions at once.
pub proof fn lemma_ci_lt_asymmetric(a: Seq<char>, b: Seq<char>)
    ensures
        !(ci_lt(a, b) && ci_lt(b, a)),
    decreases a.len(),
{
    if a.len() > 0 && b.len() > 0 && fold_char(a[0]) == fold_char(b[0]) {
        lemma_ci_lt_asymmetric(a.drop_first(), b.drop_first());
    }
}

/// Any two sequences are ordered one way, the other, or fold equal.
pub proof fn lemma_ci_lt_connected(a: Seq<char>, b: Seq<char>)
    ensures
        ci_lt(a, b) || ci_lt(b, a) || fold_eq(a, b),
    decreases a.len(),
{
    if a.len() > 0 && b.len() > 0 && fold_char(a[0]) == fold_char(b[0]) {
        lemma_ci_lt_connected(a.drop_first(), b.drop_first());
        if !ci_lt(a, b) && !ci_lt(b, a) {
            assert(fold_eq(a.drop_first(), b.drop_first()));
            assert forall|i: int| 0 <= i < a.len() implies fold_char(a[i]) == fold_char(
                #[trigger] b[i],
            ) by {
                if i >= 1 {
                    assert(a.drop_first()[i - 1] == a[i]);
                    assert(b.drop_first()[i - 1] == b[i]);
                    assert(fold_char(a.drop_first()[i - 1]) == fold_char(b.drop_first()[i - 1]));
                }
            }
        }
    }
}

/// The folded order chains.
pub proof fn lemma_ci_lt_transitive(a: Seq<char>, b: Seq<char>, c: Seq<char>)
    requires
        ci_lt(a, b),
        ci_lt(b, c),
    ensures
        ci_lt(a, c),
    decreases a.len(),
{
    if a.len() > 0 && b.len() > 0 && c.len() > 0 && fold_char(a[0]) == fold_char(b[0])
        && fold_char(b[0]) == fold_char(c[0]) {
        lemma_ci_lt_transitive(a.drop_first(), b.drop_first(), c.drop_first());
    }
}

} // verus!
