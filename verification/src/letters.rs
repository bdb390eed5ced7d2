//! The letters of a puzzle: one that every answer must hold, and others that it may hold.

use crate::text::contains_char;
use crate::totals::lemma_insert_to_set;
use vstd::prelude::*;

verus! {

/// The letters of a puzzle, as the rules see them.
pub struct Letters {
    /// The letters that an answer may use, the required one not among them.
    pub optional: Set<char>,
    /// The letter that every answer uses.
    pub required: char,
}

impl Letters {
    /// The letters that are built from the characters of `optional` and from `required`. A
    /// required letter that is also given as optional counts as required only.
    pub open spec fn of(optional: Seq<char>, required: char) -> Letters {
        Letters { optional: optional.to_set().remove(required), required }
    }

    /// Whether `c` is the required letter or one of the optional ones.
    pub open spec fn allows(self, c: char) -> bool {
        c == self.required || self.optional.contains(c)
    }

    /// Whether every character of `w` is a letter of the puzzle.
    pub open spec fn allows_all(self, w: Seq<char>) -> bool {
        forall|i: int| 0 <= i < w.len() ==> self.allows(#[trigger] w[i])
    }

    /// Whether `w` is made of letters of the puzzle and holds the required one.
    pub open spec fn admits(self, w: Seq<char>) -> bool {
        w.contains(self.required) && self.allows_all(w)
    }

    /// Whether every optional letter occurs in `w`.
    pub open spec fn covered_by(self, w: Seq<char>) -> bool {
        forall|c: char| #[trigger] self.optional.contains(c) ==> w.contains(c)
    }
}

/// Each character of the sequence is smaller than every later one.
pub open spec fn increasing(s: Seq<char>) -> bool {
    forall|i: int, j: int| 0 <= i < j < s.len() ==> #[trigger] s[i] < #[trigger] s[j]
}

/// The letters of a puzzle. The optional letters are stored in increasing order and without
/// repetition, so that nothing can be read from the order in which they were given.
#[derive(Debug, Clone, PartialEq, Eq, Hash)]
pub struct LetterSet {
    optional: Vec<char>,
    required: char,
}

impl View for LetterSet {
    type V = Letters;

    closed spec fn view(&self) -> Letters {
        Letters { optional: self.optional@.to_set(), required: self.required }
    }
}

impl LetterSet {
    /// The optional letters increase, and the required letter is not one of them.
    pub closed spec fn wf(&self) -> bool {
        &&& increasing(self.optional@)
        &&& !self.optional@.contains(self.required)
    }

    /// The letters built from the characters of `optional` and from `required`.
    pub fn new(optional: &str, required: char) -> (letters: LetterSet)
        ensures
            letters.wf(),
            letters@ == Letters::of(optional@, required),
    {
        let mut sorted: Vec<char> = Vec::new();
        for c in it: optional.chars()
            invariant
                it.seq() == optional@,
                increasing(sorted@),
                !sorted@.contains(required),
                sorted@.to_set() == optional@.take(it.index() as int).to_set().remove(required),
        {
            let ghost seen = optional@.take(it.index() as int);
            let ghost before = sorted@;
            proof {
                optional@.lemma_take_succ_push(it.index() as int);
                seen.lemma_push_to_set_commute(c);
            }
            if c != required {
                let mut k: usize = 0;
                while k < sorted.len() && sorted[k] < c
                    invariant
                        k <= sorted@.len(),
                        forall|i: int| 0 <= i < k ==> #[trigger] sorted@[i] < c,
                    decreases sorted@.len() - k,
                {
                    k += 1;
                }
                if k == sorted.len() || sorted[k] != c {
                    sorted.insert(k, c);
                    proof {
                        assert(sorted@ =~= before.insert(k as int, c));
                        assert forall|i: int, j: int|
                            0 <= i < j < sorted@.len() implies #[trigger] sorted@[i]
                            < #[trigger] sorted@[j] by {
                            if j < k {
                                assert(before[i] < before[j]);
                            } else if j == k {
                            } else if i < k {
                                assert(before[i] < c);
                                assert(c < before[k as int]);
                                assert(j - 1 == k || before[k as int] < before[j - 1]);
                            } else if i == k {
                                assert(c < before[k as int]);
                                assert(j - 1 == k || before[k as int] < before[j - 1]);
                            } else {
                                assert(before[i - 1] < before[j - 1]);
                            }
                        }
                        lemma_insert_to_set(before, k as int, c);
                        assert(!sorted@.contains(required)) by {
                            if sorted@.contains(required) {
                                assert(sorted@.to_set().contains(required));
                            }
                        }
                    }
                } else {
                    proof {
                        assert(before.to_set().contains(c));
                        assert(before.to_set() =~= before.to_set().insert(c));
                    }
                }
                proof {
                    assert(sorted@.to_set() =~= seen.push(c).to_set().remove(required));
                }
            } else {
                proof {
                    assert(sorted@.to_set() =~= seen.push(c).to_set().remove(required));
                }
            }
        }
        proof {
            assert(optional@.take(optional@.len() as int) =~= optional@);
        }
        LetterSet { optional: sorted, required }
    }

    /// The letter that every answer uses.
    pub fn required(&self) -> (c: char)
        ensures
            c == self@.required,
    {
        self.required
    }

    /// Whether `c` is a letter of the puzzle.
    pub fn allows(&self, c: char) -> (yes: bool)
        ensures
            yes == self@.allows(c),
    {
        if c == self.required {
            return true;
        }
        let mut k: usize = 0;
        while k < self.optional.len()
            invariant
                k <= self.optional@.len(),
                forall|i: int| 0 <= i < k ==> #[trigger] self.optional@[i] != c,
            decreases self.optional@.len() - k,
        {
            if self.optional[k] == c {
                assert(self.optional@.to_set().contains(c));
                return true;
            }
            k += 1;
        }
        false
    }

    /// Whether every character of `word` is a letter of the puzzle.
    pub fn allows_all(&self, word: &str) -> (yes: bool)
        ensures
            yes == self@.allows_all(word@),
    {
        for c in it: word.chars()
            invariant
                it.seq() == word@,
                forall|i: int| 0 <= i < it.index() ==> self@.allows(#[trigger] word@[i]),
        {
            if !self.allows(c) {
                assert(!self@.allows(word@[it.index() as int]));
                return false;
            }
        }
        true
    }

    /// Whether every optional letter occurs in `word`.
    pub fn covered_by(&self, word: &str) -> (yes: bool)
        ensures
            yes == self@.covered_by(word@),
    {
        let mut k: usize = 0;
        while k < self.optional.len()
            invariant
                k <= self.optional@.len(),
                forall|i: int| 0 <= i < k ==> word@.contains(#[trigger] self.optional@[i]),
            decreases self.optional@.len() - k,
        {
            if !contains_char(word, self.optional[k]) {
                assert(self@.optional.contains(self.optional@[k as int]));
                return false;
            }
            k += 1;
        }
        assert forall|c: char| #[trigger] self@.optional.contains(c) implies word@.contains(c) by {
            let i = choose|i: int| 0 <= i < self.optional@.len() && self.optional@[i] == c;
            assert(word@.contains(self.optional@[i]));
        }
        true
    }
}

} // verus!
