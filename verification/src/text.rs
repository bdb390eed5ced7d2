//! Words as sequences of characters: their length, their lower-case form and their order.

use vstd::prelude::*;
use vstd::std_specs::iter::IteratorSpec;
use vstd::utf8::encode_utf8;

verus! {

/// The length of a word as the game counts it: the number of its characters.
pub open spec fn word_len(w: Seq<char>) -> nat {
    w.len()
}

/// The lower-case form of an ASCII capital letter; every other character is left as it is.
pub open spec fn fold_char(c: char) -> char {
    if 'A' <= c <= 'Z' {
        ((c as u8) + 32) as char
    } else {
        c
    }
}

/// The word with each of its characters folded to lower case.
pub open spec fn fold_case(w: Seq<char>) -> Seq<char> {
    Seq::new(w.len(), |i: int| fold_char(w[i]))
}

/// The strict lexicographic order of words by the code points of their characters.
pub open spec fn lex_lt(a: Seq<char>, b: Seq<char>) -> bool
    decreases a.len(),
{
    if b.len() == 0 {
        false
    } else if a.len() == 0 {
        true
    } else if a[0] != b[0] {
        a[0] < b[0]
    } else {
        lex_lt(a.drop_first(), b.drop_first())
    }
}

/// No word comes before itself.
pub proof fn lemma_lex_irreflexive(a: Seq<char>)
    ensures
        !lex_lt(a, a),
    decreases a.len(),
{
    if a.len() > 0 {
        lemma_lex_irreflexive(a.drop_first());
    }
}

/// The order is transitive.
pub proof fn lemma_lex_transitive(a: Seq<char>, b: Seq<char>, c: Seq<char>)
    requires
        lex_lt(a, b),
        lex_lt(b, c),
    ensures
        lex_lt(a, c),
    decreases a.len(),
{
    if a.len() > 0 && a[0] == b[0] && b[0] == c[0] {
        lemma_lex_transitive(a.drop_first(), b.drop_first(), c.drop_first());
    }
}

/// Of two different words one comes before the other.
pub proof fn lemma_lex_total(a: Seq<char>, b: Seq<char>)
    requires
        a != b,
    ensures
        lex_lt(a, b) || lex_lt(b, a),
    decreases a.len(),
{
    if a.len() == 0 || b.len() == 0 {
        assert(a.len() != 0 || b.len() != 0) by {
            if a.len() == 0 && b.len() == 0 {
                assert(a =~= b);
            }
        }
    } else if a[0] == b[0] {
        if a.drop_first() == b.drop_first() {
            assert(a =~= seq![a[0]] + a.drop_first());
            assert(b =~= seq![b[0]] + b.drop_first());
        }
        lemma_lex_total(a.drop_first(), b.drop_first());
    }
}

/// A word has no more characters than its UTF-8 form has bytes.
pub proof fn lemma_chars_within_bytes(w: Seq<char>)
    ensures
        w.len() <= encode_utf8(w).len(),
    decreases w.len(),
{
    if w.len() > 0 {
        lemma_chars_within_bytes(w.drop_first());
    }
}

/// Folding a word that is already folded changes nothing.
pub proof fn lemma_fold_case_idempotent(w: Seq<char>)
    ensures
        fold_case(fold_case(w)) == fold_case(w),
{
    assert(fold_case(fold_case(w)) =~= fold_case(w));
}

/// The length of `word`: the number of its characters.
pub fn char_count(word: &str) -> (n: usize)
    ensures
        n == word_len(word@),
{
    let bytes: usize = word.as_bytes().len();
    proof {
        lemma_chars_within_bytes(word@);
    }
    let mut n: usize = 0;
    for _c in it: word.chars()
        invariant
            it.seq() == word@,
            word@.len() <= bytes,
            n == it.index(),
    {
        n = n + 1;
    }
    n
}

/// Calls `str::to_ascii_lowercase`, which returns a copy of the string in which each of the
/// ASCII letters 'A' to 'Z' is replaced by its lower-case letter and every other character
/// is kept: the contract says so character by character.
#[verifier::external_body]
pub(crate) fn ascii_lowercase(word: &str) -> (folded: String)
    ensures
        folded@ == fold_case(word@),
{
    word.to_ascii_lowercase()
}

/// Whether `c` occurs in `word`.
pub fn contains_char(word: &str, c: char) -> (found: bool)
    ensures
        found == word@.contains(c),
{
    let mut found = false;
    for x in it: word.chars()
        invariant
            it.seq() == word@,
            found == (exists|j: int| 0 <= j < it.index() && word@[j] == c),
    {
        found = found || x == c;
    }
    found
}

/// Whether `a` comes before `b` in the order of [`lex_lt`].
pub fn precedes(a: &str, b: &str) -> (before: bool)
    ensures
        before == lex_lt(a@, b@),
{
    let mut left = a.chars();
    let mut right = b.chars();
    loop
        invariant
            lex_lt(a@, b@) == lex_lt(left.remaining(), right.remaining()),
            left.decrease() is Some,
        decreases left.decrease()->0,
    {
        let x = left.next();
        let y = right.next();
        match (x, y) {
            (Some(p), Some(q)) => {
                if p != q {
                    return p < q;
                }
            },
            (None, Some(_)) => {
                return true;
            },
            (_, None) => {
                return false;
            },
        }
    }
}

} // verus!
