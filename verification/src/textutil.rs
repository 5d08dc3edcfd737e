//! Ordering and searching over character sequences.
//!
//! Configuration maps are rendered with their keys in lexicographic order, so
//! the library needs a total order on strings together with the facts that
//! make sorted insertion work: trichotomy and transitivity.

use vstd::prelude::*;

verus! {

/// Lexicographic order on character sequences, by Unicode scalar value:
/// `a` comes strictly before `b`.
pub open spec fn lex_lt(a: Seq<char>, b: Seq<char>) -> bool
    decreases a.len(),
{
    if b.len() == 0 {
        false
    } else if a.len() == 0 {
        true
    } else if a[0] < b[0] {
        true
    } else if b[0] < a[0] {
        false
    } else {
        lex_lt(a.drop_first(), b.drop_first())
    }
}

/// Exactly one of `lex_lt(a, b)`, `a == b`, `lex_lt(b, a)` holds.
pub proof fn lemma_lex_trichotomy(a: Seq<char>, b: Seq<char>)
    ensures
        lex_lt(a, b) ==> !lex_lt(b, a) && a != b,
        a == b ==> !lex_lt(a, b),
        !lex_lt(a, b) && !lex_lt(b, a) ==> a == b,
    decreases a.len(),
{
    if a.len() == 0 || b.len() == 0 {
        if a.len() == 0 && b.len() == 0 {
            assert(a =~= b);
        }
    } else {
        lemma_lex_trichotomy(a.drop_first(), b.drop_first());
        if a[0] == b[0] {
            if a.drop_first() == b.drop_first() {
                assert(a.len() == a.drop_first().len() + 1);
                assert(b.len() == b.drop_first().len() + 1);
                assert forall|i: int| 0 <= i < a.len() implies a[i] == b[i] by {
                    if i >= 1 {
                        assert(a[i] == a.drop_first()[i - 1]);
                        assert(b[i] == b.drop_first()[i - 1]);
                    }
                }
                assert(a =~= b);
            }
            if a == b {
                assert(a.drop_first() =~= b.drop_first());
            }
        }
    }
}

/// Lexicographic order is transitive.
pub proof fn lemma_lex_transitive(a: Seq<char>, b: Seq<char>, c: Seq<char>)
    requires
        lex_lt(a, b),
        lex_lt(b, c),
    ensures
        lex_lt(a, c),
    decreases a.len(),
{
    if a.len() == 0 || b.len() == 0 || c.len() == 0 {
    } else {
        if a[0] == b[0] && b[0] == c[0] {
            lemma_lex_transitive(a.drop_first(), b.drop_first(), c.drop_first());
        }
    }
}

/// Three-way comparison result for strings.
#[derive(PartialEq, Eq, Structural, Clone, Copy)]
pub enum StrOrder {
    Before,
    Same,
    After,
}

/// Compares two strings in lexicographic order over their characters.
pub fn str_compare(a: &str, b: &str) -> (o: StrOrder)
    ensures
        o == StrOrder::Before <==> lex_lt(a@, b@),
        o == StrOrder::Same <==> a@ == b@,
        o == StrOrder::After <==> lex_lt(b@, a@),
{
    proof {
        lemma_lex_trichotomy(a@, b@);
        lemma_lex_trichotomy(b@, a@);
    }
    let a_len = a.unicode_len();
    let b_len = b.unicode_len();
    let mut i: usize = 0;
    proof {
        assert(a@.subrange(0, 0) =~= b@.subrange(0, 0));
    }
    loop
        invariant
            i <= a_len,
            i <= b_len,
            a_len == a@.len(),
            b_len == b@.len(),
            a@.subrange(0, i as int) == b@.subrange(0, i as int),
        decreases a_len - i,
    {
        proof {
            lemma_lex_trichotomy(a@, b@);
            lemma_lex_trichotomy(b@, a@);
        }
        if i == a_len || i == b_len {
            proof {
                lemma_lex_common_prefix(a@, b@, i as int);
            }
            if a_len == b_len && i == a_len {
                proof {
                    assert forall|j: int| 0 <= j < a@.len() implies a@[j] == b@[j] by {
                        assert(a@.subrange(0, i as int)[j] == a@[j]);
                        assert(b@.subrange(0, i as int)[j] == b@[j]);
                    }
                    assert(a@ =~= b@);
                }
                return StrOrder::Same;
            } else if i == a_len {
                return StrOrder::Before;
            } else {
                return StrOrder::After;
            }
        }
        let ca = a.get_char(i);
        let cb = b.get_char(i);
        if ca < cb {
            proof {
                lemma_lex_common_prefix(a@, b@, i as int);
            }
            return StrOrder::Before;
        } else if cb < ca {
            proof {
                lemma_lex_common_prefix(a@, b@, i as int);
            }
            return StrOrder::After;
        }
        proof {
            assert(a@.subrange(0, i + 1) =~= b@.subrange(0, i + 1));
        }
        i = i + 1;
    }
}

/// When `a` and `b` agree on their first `n` characters, their order is
/// decided just after the shared prefix.
proof fn lemma_lex_common_prefix(a: Seq<char>, b: Seq<char>, n: int)
    requires
        0 <= n <= a.len(),
        0 <= n <= b.len(),
        a.subrange(0, n) == b.subrange(0, n),
    ensures
        n < a.len() && n < b.len() && a[n] < b[n] ==> lex_lt(a, b),
        n < a.len() && n < b.len() && b[n] < a[n] ==> lex_lt(b, a),
        n == a.len() && n < b.len() ==> lex_lt(a, b),
        n == b.len() && n < a.len() ==> lex_lt(b, a),
    decreases n,
{
    if n == 0 {
    } else {
        assert(a[0] == b[0]) by {
            assert(a.subrange(0, n)[0] == a[0]);
            assert(b.subrange(0, n)[0] == b[0]);
        }
        assert(a.drop_first().subrange(0, n - 1) =~= b.drop_first().subrange(0, n - 1)) by {
            assert(forall|j: int| 0 <= j < n - 1 ==>
                #[trigger] a.drop_first().subrange(0, n - 1)[j] == a.subrange(0, n)[j + 1]);
            assert(forall|j: int| 0 <= j < n - 1 ==>
                #[trigger] b.drop_first().subrange(0, n - 1)[j] == b.subrange(0, n)[j + 1]);
        }
        lemma_lex_common_prefix(a.drop_first(), b.drop_first(), n - 1);
    }
}

/// `p` occurs as a contiguous run of characters somewhere in `s`.
pub open spec fn has_substring(s: Seq<char>, p: Seq<char>) -> bool {
    exists|i: int| 0 <= i && i + p.len() <= s.len() && #[trigger] s.subrange(i, i + p.len()) == p
}

/// Whether `p` occurs in `s` starting at position `i`.
fn matches_at(s: &str, p: &str, i: usize) -> (r: bool)
    requires
        i + p@.len() <= s@.len(),
    ensures
        r <==> s@.subrange(i as int, i as int + p@.len() as int) == p@,
{
    let s_len = s.unicode_len();
    let p_len = p.unicode_len();
    let mut j: usize = 0;
    while j < p_len
        invariant
            0 <= j <= p_len,
            p_len == p@.len(),
            s_len == s@.len(),
            i + p@.len() <= s@.len(),
            forall|k: int| 0 <= k < j ==> s@[i + k] == p@[k],
        decreases p_len - j,
    {
        if s.get_char(i + j) != p.get_char(j) {
            proof {
                assert(s@.subrange(i as int, i as int + p@.len() as int)[j as int] == s@[i + j]);
            }
            return false;
        }
        j = j + 1;
    }
    proof {
        assert(s@.subrange(i as int, i as int + p@.len() as int) =~= p@);
    }
    true
}

/// Whether the string `s` contains `p` as a substring.
pub fn contains_str(s: &str, p: &str) -> (r: bool)
    ensures
        r == has_substring(s@, p@),
{
    let s_len = s.unicode_len();
    let p_len = p.unicode_len();
    if p_len > s_len {
        return false;
    }
    if p_len == 0 {
        proof {
            assert(s@.subrange(0, 0 + p@.len() as int) =~= p@);
        }
        return true;
    }
    let mut i: usize = 0;
    while i <= s_len - p_len
        invariant
            s_len == s@.len(),
            p_len == p@.len(),
            0 < p_len <= s_len,
            i <= s_len,
            forall|k: int| 0 <= k < i ==> #[trigger] s@.subrange(k, k + p@.len() as int) != p@,
        decreases s_len - i,
    {
        if matches_at(s, p, i) {
            return true;
        }
        i = i + 1;
    }
    proof {
        assert(forall|k: int| 0 <= k && k + p@.len() <= s@.len()
            ==> #[trigger] s@.subrange(k, k + p@.len() as int) != p@);
    }
    false
}


/// `s` starts with `p`.
pub open spec fn starts_plain(s: Seq<char>, p: Seq<char>) -> bool {
    s.len() >= p.len() && s.subrange(0, p.len() as int) == p
}

/// Whether the string `s` starts with `p`.
pub fn starts_with_str(s: &str, p: &str) -> (r: bool)
    ensures
        r == starts_plain(s@, p@),
{
    let s_len = s.unicode_len();
    let p_len = p.unicode_len();
    if p_len > s_len {
        return false;
    }
    matches_at(s, p, 0)
}

/// `a` is `p` itself or, when `p` is a lowercase ASCII letter, its uppercase
/// form: a one-sided, ASCII-only case-blind match against a lowercase
/// pattern character.
pub open spec fn ci_char_eq(a: char, p: char) -> bool {
    a == p || ('a' <= p && p <= 'z' && a as u32 == p as u32 - 32)
}

/// `s` starts with `p`, blind to ASCII case; `p` is given in lowercase.
pub open spec fn starts_ci(s: Seq<char>, p: Seq<char>) -> bool {
    s.len() >= p.len() && forall|j: int| 0 <= j < p.len() ==> ci_char_eq(s[j], #[trigger] p[j])
}

/// Whether the string `s` starts with the lowercase pattern `p`, blind to
/// ASCII case.
pub fn starts_with_ci(s: &str, p: &str) -> (r: bool)
    ensures
        r == starts_ci(s@, p@),
{
    let s_len = s.unicode_len();
    let p_len = p.unicode_len();
    if p_len > s_len {
        return false;
    }
    ci_matches_at(s, p, 0)
}

/// `p` occurs in `s` starting at `i`, blind to ASCII case.
pub open spec fn ci_match_at(s: Seq<char>, p: Seq<char>, i: int) -> bool {
    forall|j: int| 0 <= j < p.len() ==> ci_char_eq(s[i + j], #[trigger] p[j])
}

/// `p` occurs somewhere in `s`, blind to ASCII case; `p` is given in
/// lowercase.
pub open spec fn has_sub_ci(s: Seq<char>, p: Seq<char>) -> bool {
    exists|i: int| 0 <= i && i + p.len() <= s.len() && #[trigger] ci_match_at(s, p, i)
}

/// Whether `p` occurs in `s` starting at position `i`, blind to ASCII case.
fn ci_matches_at(s: &str, p: &str, i: usize) -> (r: bool)
    requires
        i + p@.len() <= s@.len(),
    ensures
        r == ci_match_at(s@, p@, i as int),
{
    let s_len = s.unicode_len();
    let p_len = p.unicode_len();
    let mut j: usize = 0;
    while j < p_len
        invariant
            0 <= j <= p_len,
            p_len == p@.len(),
            s_len == s@.len(),
            i + p@.len() <= s@.len(),
            forall|k: int| 0 <= k < j ==> ci_char_eq(s@[i + k], #[trigger] p@[k]),
        decreases p_len - j,
    {
        let a = s.get_char(i + j);
        let b = p.get_char(j);
        let upper = 'a' <= b && b <= 'z' && (a as u32) + 32 == (b as u32);
        if !(a == b || upper) {
            return false;
        }
        j = j + 1;
    }
    true
}

/// Whether the string `s` holds the lowercase pattern `p` somewhere, blind
/// to ASCII case.
pub fn contains_ci(s: &str, p: &str) -> (r: bool)
    ensures
        r == has_sub_ci(s@, p@),
{
    let s_len = s.unicode_len();
    let p_len = p.unicode_len();
    if p_len > s_len {
        return false;
    }
    if p_len == 0 {
        proof {
            assert(ci_match_at(s@, p@, 0));
        }
        return true;
    }
    let mut i: usize = 0;
    while i <= s_len - p_len
        invariant
            s_len == s@.len(),
            p_len == p@.len(),
            0 < p_len <= s_len,
            i <= s_len,
            forall|k: int| 0 <= k < i ==> !#[trigger] ci_match_at(s@, p@, k),
        decreases s_len - i,
    {
        if ci_matches_at(s, p, i) {
            return true;
        }
        i = i + 1;
    }
    false
}

} // verus!
