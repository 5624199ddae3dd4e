//! Lexicographic ordering of character sequences.
//!
//! Package names and versions are compared as plain character sequences;
//! this gives the deterministic (name, version) ordering that snapshots
//! are sorted by.

use vstd::prelude::*;

verus! {

/// Result of a three-way comparison.
#[derive(Debug, Clone, Copy, PartialEq, Eq)]
pub enum Cmp {
    Less,
    Equal,
    Greater,
}

/// Strict order on characters, by code point.
pub open spec fn char_lt(a: char, b: char) -> bool {
    (a as int) < (b as int)
}

/// Strict lexicographic order on character sequences: a proper prefix comes
/// first, otherwise the first differing character decides.
pub open spec fn lex_lt(a: Seq<char>, b: Seq<char>) -> bool
    decreases a.len(),
{
    if b.len() == 0 {
        false
    } else if a.len() == 0 {
        true
    } else if a[0] == b[0] {
        lex_lt(a.drop_first(), b.drop_first())
    } else {
        char_lt(a[0], b[0])
    }
}

/// `lex_lt` is a strict total order: any two sequences are related exactly
/// one way.
pub proof fn lemma_lex_lt_trichotomy(a: Seq<char>, b: Seq<char>)
    ensures
        lex_lt(a, b) || lex_lt(b, a) || a == b,
        lex_lt(a, b) ==> !lex_lt(b, a),
        lex_lt(a, b) ==> a != b,
    decreases a.len(),
{
    if a.len() == 0 && b.len() == 0 {
        assert(a =~= b);
    } else if a.len() > 0 && b.len() > 0 && a[0] == b[0] {
        lemma_lex_lt_trichotomy(a.drop_first(), b.drop_first());
        if a.drop_first() == b.drop_first() {
            assert(a =~= b) by {
                assert(forall|i: int|
                    1 <= i < a.len() ==> a[i] == a.drop_first()[i - 1]
                        && b[i] == b.drop_first()[i - 1]);
            }
        }
        if a == b {
            assert(a.drop_first() =~= b.drop_first());
        }
    } else {
        // one side empty, or the heads differ: the definition decides directly
        if a == b {
            assert(a.len() == b.len());
            if a.len() > 0 {
                assert(a[0] == b[0]);
            }
        }
    }
}

/// `lex_lt` is transitive.
pub proof fn lemma_lex_lt_transitive(a: Seq<char>, b: Seq<char>, c: Seq<char>)
    requires
        lex_lt(a, b),
        lex_lt(b, c),
    ensures
        lex_lt(a, c),
    decreases a.len(),
{
    if a.len() > 0 && b.len() > 0 && c.len() > 0 {
        if a[0] == b[0] && b[0] == c[0] {
            lemma_lex_lt_transitive(a.drop_first(), b.drop_first(), c.drop_first());
        }
    }
}

/// Relates the recursive definition of `lex_lt` to a common prefix of
/// length `i`: what holds at the first position past an equal prefix
/// decides the comparison.
proof fn lemma_lex_lt_from_prefix(a: Seq<char>, b: Seq<char>, i: int)
    requires
        0 <= i <= a.len(),
        i <= b.len(),
        forall|j: int| 0 <= j < i ==> a[j] == b[j],
    ensures
        (i < a.len() && i < b.len() && char_lt(a[i], b[i])) ==> lex_lt(a, b),
        (i == a.len() && i < b.len()) ==> lex_lt(a, b),
        (i == a.len() && i == b.len()) ==> a == b,
    decreases i,
{
    if i == 0 {
        if i == a.len() && i == b.len() {
            assert(a =~= b);
        }
    } else {
        let at = a.drop_first();
        let bt = b.drop_first();
        assert(forall|j: int| 0 <= j < i - 1 ==> at[j] == a[j + 1] && bt[j] == b[j + 1]);
        lemma_lex_lt_from_prefix(at, bt, i - 1);
        if i < a.len() && i < b.len() && char_lt(a[i], b[i]) {
            assert(at[i - 1] == a[i] && bt[i - 1] == b[i]);
            assert(lex_lt(a, b));
        }
        if i == a.len() && i < b.len() {
            assert(lex_lt(at, bt));
        }
        if i == a.len() && i == b.len() {
            assert(at == bt);
            assert(a =~= b);
        }
    }
}

/// Three-way comparison of two string slices, by character.
pub fn str_compare(a: &str, b: &str) -> (c: Cmp)
    ensures
        (c is Less) == lex_lt(a@, b@),
        (c is Equal) == (a@ == b@),
        (c is Greater) == lex_lt(b@, a@),
{
    let a_len = a.unicode_len();
    let b_len = b.unicode_len();
    let mut i: usize = 0;
    while i < a_len && i < b_len
        invariant
            a_len == a@.len(),
            b_len == b@.len(),
            i <= a_len,
            i <= b_len,
            forall|j: int| 0 <= j < i ==> a@[j] == b@[j],
        decreases a_len - i,
    {
        let ca = a.get_char(i);
        let cb = b.get_char(i);
        if (ca as u32) < (cb as u32) {
            proof {
                lemma_lex_lt_from_prefix(a@, b@, i as int);
                lemma_lex_lt_trichotomy(a@, b@);
            }
            return Cmp::Less;
        }
        if (cb as u32) < (ca as u32) {
            proof {
                lemma_lex_lt_from_prefix(b@, a@, i as int);
                lemma_lex_lt_trichotomy(a@, b@);
            }
            return Cmp::Greater;
        }
        i += 1;
    }
    if a_len < b_len {
        proof {
            lemma_lex_lt_from_prefix(a@, b@, a_len as int);
            lemma_lex_lt_trichotomy(a@, b@);
        }
        Cmp::Less
    } else if b_len < a_len {
        proof {
            lemma_lex_lt_from_prefix(b@, a@, b_len as int);
            lemma_lex_lt_trichotomy(a@, b@);
        }
        Cmp::Greater
    } else {
        proof {
            lemma_lex_lt_from_prefix(a@, b@, i as int);
            lemma_lex_lt_trichotomy(a@, b@);
        }
        Cmp::Equal
    }
}

} // verus!
