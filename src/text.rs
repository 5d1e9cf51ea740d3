//! Character-level helpers on strings: lexicographic order and substring search.
use vstd::prelude::*;
use vstd::string::StrSliceExecFns;

verus! {

/// `a` is before `b` in the lexicographic order of characters, comparing from
/// position `i` on (the positions before `i` are taken as equal).
pub open spec fn lex_less_from(a: Seq<char>, b: Seq<char>, i: int) -> bool
    decreases a.len() - i,
{
    if i >= a.len() {
        i < b.len()
    } else if i >= b.len() {
        false
    } else if a[i] != b[i] {
        (a[i] as int) < (b[i] as int)
    } else {
        lex_less_from(a, b, i + 1)
    }
}

/// The order of `str`: lexicographic by character (the order of code points
/// agrees with the byte order of UTF-8).
pub open spec fn lex_less(a: Seq<char>, b: Seq<char>) -> bool {
    lex_less_from(a, b, 0)
}

/// `m` occurs in `s` starting at position `i`.
pub open spec fn occurs_at(s: Seq<char>, m: Seq<char>, i: int) -> bool {
    0 <= i && i + m.len() <= s.len() && s.subrange(i, i + m.len()) == m
}

/// `m` occurs somewhere in `s`.
pub open spec fn contains_seq(s: Seq<char>, m: Seq<char>) -> bool {
    exists|i: int| occurs_at(s, m, i)
}

pub proof fn lemma_lex_total_from(a: Seq<char>, b: Seq<char>, i: int)
    requires
        0 <= i <= a.len(),
        i <= b.len(),
        a.subrange(0, i) == b.subrange(0, i),
    ensures
        lex_less_from(a, b, i) || lex_less_from(b, a, i) || a == b,
    decreases a.len() - i,
{
    if i >= a.len() {
        if i >= b.len() {
            assert(a =~= a.subrange(0, i));
            assert(b =~= b.subrange(0, i));
        }
    } else if i >= b.len() {
    } else if a[i] != b[i] {
        assert((a[i] as int) != (b[i] as int));
    } else {
        assert(a.subrange(0, i + 1) =~= a.subrange(0, i).push(a[i]));
        assert(b.subrange(0, i + 1) =~= b.subrange(0, i).push(b[i]));
        lemma_lex_total_from(a, b, i + 1);
    }
}

/// Any two strings are equal or ordered one way.
pub proof fn lemma_lex_total(a: Seq<char>, b: Seq<char>)
    ensures
        lex_less(a, b) || lex_less(b, a) || a == b,
{
    assert(a.subrange(0, 0) =~= b.subrange(0, 0));
    lemma_lex_total_from(a, b, 0);
}

pub proof fn lemma_lex_irreflexive_from(a: Seq<char>, i: int)
    requires
        0 <= i,
    ensures
        !lex_less_from(a, a, i),
    decreases a.len() - i,
{
    if i < a.len() {
        lemma_lex_irreflexive_from(a, i + 1);
    }
}

pub proof fn lemma_lex_trans_from(a: Seq<char>, b: Seq<char>, c: Seq<char>, i: int)
    requires
        0 <= i,
        lex_less_from(a, b, i),
        lex_less_from(b, c, i),
    ensures
        lex_less_from(a, c, i),
    decreases a.len() - i,
{
    if i < a.len() && i < b.len() && i < c.len() && a[i] == b[i] && b[i] == c[i] {
        lemma_lex_trans_from(a, b, c, i + 1);
    }
}

/// The order is transitive.
pub proof fn lemma_lex_trans(a: Seq<char>, b: Seq<char>, c: Seq<char>)
    requires
        lex_less(a, b),
        lex_less(b, c),
    ensures
        lex_less(a, c),
{
    lemma_lex_trans_from(a, b, c, 0);
}

/// The order is strict.
pub proof fn lemma_lex_irreflexive(a: Seq<char>)
    ensures
        !lex_less(a, a),
{
    lemma_lex_irreflexive_from(a, 0);
}

/// Compares two strings in the order of `str`.
pub fn str_less(a: &str, b: &str) -> (r: bool)
    ensures
        r == lex_less(a@, b@),
{
    let la = a.unicode_len();
    let lb = b.unicode_len();
    let mut i: usize = 0;
    while i < la && i < lb
        invariant
            la == a@.len(),
            lb == b@.len(),
            0 <= i <= la,
            i <= lb,
            lex_less(a@, b@) == lex_less_from(a@, b@, i as int),
        decreases la - i,
    {
        let ca = a.get_char(i);
        let cb = b.get_char(i);
        if ca != cb {
            return (ca as u32) < (cb as u32);
        }
        i = i + 1;
    }
    i < lb
}

/// Tells whether `m` occurs in `s`.
pub fn str_contains(s: &str, m: &str) -> (r: bool)
    ensures
        r == contains_seq(s@, m@),
{
    let ls = s.unicode_len();
    let lm = m.unicode_len();
    if lm > ls {
        assert forall|i: int| !occurs_at(s@, m@, i) by {}
        return false;
    }
    let mut i: usize = 0;
    while i <= ls - lm
        invariant
            ls == s@.len(),
            lm == m@.len(),
            lm <= ls,
            i <= ls - lm + 1,
            forall|k: int| 0 <= k < i ==> !occurs_at(s@, m@, k),
        decreases ls - lm + 1 - i,
    {
        let mut j: usize = 0;
        let mut same = true;
        while j < lm
            invariant
                ls == s@.len(),
                lm == m@.len(),
                i + lm <= ls,
                j <= lm,
                same == (forall|k: int| 0 <= k < j ==> s@[i + k] == m@[k]),
            decreases lm - j,
        {
            if s.get_char(i + j) != m.get_char(j) {
                same = false;
            }
            j = j + 1;
        }
        if same {
            assert(s@.subrange(i as int, i + lm) =~= m@);
            assert(occurs_at(s@, m@, i as int));
            return true;
        }
        assert(!occurs_at(s@, m@, i as int)) by {
            if s@.subrange(i as int, i + lm) == m@ {
                assert forall|k: int| 0 <= k < lm implies s@[i + k] == m@[k] by {
                    assert(s@.subrange(i as int, i + lm)[k] == s@[i + k]);
                }
            }
        }
        i = i + 1;
    }
    assert forall|k: int| !occurs_at(s@, m@, k) by {
        if 0 <= k && k + lm <= ls {
            assert(k < i);
        }
    }
    false
}

/// Tells whether two strings hold the same characters.
pub fn str_eq(a: &str, b: &str) -> (r: bool)
    ensures
        r == (a@ == b@),
{
    let la = a.unicode_len();
    let lb = b.unicode_len();
    if la != lb {
        return false;
    }
    let mut i: usize = 0;
    while i < la
        invariant
            la == a@.len(),
            lb == b@.len(),
            la == lb,
            i <= la,
            forall|k: int| 0 <= k < i ==> a@[k] == b@[k],
        decreases la - i,
    {
        if a.get_char(i) != b.get_char(i) {
            return false;
        }
        i = i + 1;
    }
    assert(a@ =~= b@);
    true
}

} // verus!
