//! A set of words, kept in ascending order without repetition.

use crate::text::{lemma_lex_irreflexive, lemma_lex_total, lemma_lex_transitive, lex_lt, precedes};
use crate::totals::lemma_insert_to_set;
use vstd::prelude::*;

verus! {

/// Each word of the sequence comes before every later one.
pub open spec fn ascending(s: Seq<Seq<char>>) -> bool {
    forall|i: int, j: int| 0 <= i < j < s.len() ==> lex_lt(#[trigger] s[i], #[trigger] s[j])
}

/// An ascending sequence holds no word twice.
pub proof fn lemma_ascending_no_duplicates(s: Seq<Seq<char>>)
    requires
        ascending(s),
    ensures
        s.no_duplicates(),
{
    assert forall|i: int, j: int| 0 <= i < s.len() && 0 <= j < s.len() && i != j implies s[i]
        != s[j] by {
        lemma_lex_irreflexive(s[i]);
        if i < j {
            assert(lex_lt(s[i], s[j]));
        } else {
            assert(lex_lt(s[j], s[i]));
        }
    }
}

/// A set of words. The words are stored in ascending order, so that two sets with the same
/// words are stored alike.
#[derive(Debug, Clone, PartialEq, Eq, Hash)]
pub struct WordSet {
    words: Vec<String>,
}

impl View for WordSet {
    type V = Set<Seq<char>>;

    /// The words of the set.
    open spec fn view(&self) -> Set<Seq<char>> {
        self.seq().to_set()
    }
}

impl WordSet {
    /// The words of the set in the order in which they are stored.
    pub closed spec fn seq(&self) -> Seq<Seq<char>> {
        Seq::new(self.words@.len(), |i: int| self.words@[i]@)
    }

    /// The stored words ascend.
    pub open spec fn wf(&self) -> bool {
        ascending(self.seq())
    }

    /// A well-formed set is finite, has as many words as are stored, and stores none twice.
    pub proof fn lemma_distinct(&self)
        requires
            self.wf(),
        ensures
            self.seq().no_duplicates(),
            self@.finite(),
            self@.len() == self.seq().len(),
    {
        lemma_ascending_no_duplicates(self.seq());
        self.seq().unique_seq_to_set();
        vstd::seq_lib::seq_to_set_is_finite(self.seq());
    }

    /// The empty set.
    pub fn new() -> (set: WordSet)
        ensures
            set.wf(),
            set@ == Set::<Seq<char>>::empty(),
    {
        let set = WordSet { words: Vec::new() };
        assert(set@ =~= Set::<Seq<char>>::empty());
        set
    }

    /// The number of words in the set.
    pub fn len(&self) -> (n: usize)
        ensures
            n == self.seq().len(),
    {
        self.words.len()
    }

    /// The word at place `i` of the ascending order.
    pub fn get(&self, i: usize) -> (word: &str)
        requires
            i < self.seq().len(),
        ensures
            word@ == self.seq()[i as int],
    {
        self.words[i].as_str()
    }

    /// The number of stored words that come before `word`.
    fn lower_bound(&self, word: &str) -> (k: usize)
        requires
            self.wf(),
        ensures
            k <= self.seq().len(),
            forall|i: int| 0 <= i < k ==> lex_lt(#[trigger] self.seq()[i], word@),
            forall|i: int| k <= i < self.seq().len() ==> !lex_lt(#[trigger] self.seq()[i], word@),
    {
        let mut lo: usize = 0;
        let mut hi: usize = self.words.len();
        while lo < hi
            invariant
                self.wf(),
                lo <= hi <= self.seq().len(),
                self.seq().len() == self.words@.len(),
                forall|i: int| 0 <= i < lo ==> lex_lt(#[trigger] self.seq()[i], word@),
                forall|i: int|
                    hi <= i < self.seq().len() ==> !lex_lt(#[trigger] self.seq()[i], word@),
            decreases hi - lo,
        {
            let mid = lo + (hi - lo) / 2;
            if precedes(self.words[mid].as_str(), word) {
                assert forall|i: int| 0 <= i < mid + 1 implies lex_lt(
                    #[trigger] self.seq()[i],
                    word@,
                ) by {
                    if i < mid {
                        lemma_lex_transitive(self.seq()[i], self.seq()[mid as int], word@);
                    }
                }
                lo = mid + 1;
            } else {
                assert forall|i: int| mid <= i < self.seq().len() implies !lex_lt(
                    #[trigger] self.seq()[i],
                    word@,
                ) by {
                    if mid < i && lex_lt(self.seq()[i], word@) {
                        lemma_lex_transitive(self.seq()[mid as int], self.seq()[i], word@);
                    }
                }
                hi = mid;
            }
        }
        lo
    }

    /// Whether `word` is in the set.
    pub fn contains(&self, word: &str) -> (found: bool)
        requires
            self.wf(),
        ensures
            found == self@.contains(word@),
    {
        let k = self.lower_bound(word);
        let found = k < self.words.len() && !precedes(word, self.words[k].as_str());
        proof {
            if found {
                if self.seq()[k as int] != word@ {
                    lemma_lex_total(self.seq()[k as int], word@);
                }
                assert(self.seq()[k as int] == word@);
            } else if self@.contains(word@) {
                let i = choose|i: int| 0 <= i < self.seq().len() && self.seq()[i] == word@;
                lemma_lex_irreflexive(word@);
                if i > k {
                    lemma_lex_transitive(word@, self.seq()[k as int], self.seq()[i]);
                }
            }
        }
        found
    }

    /// Puts `word` into the set, and says whether it was not yet there.
    pub fn insert(&mut self, word: String) -> (fresh: bool)
        requires
            old(self).wf(),
        ensures
            final(self).wf(),
            final(self)@ == old(self)@.insert(word@),
            fresh == !old(self)@.contains(word@),
    {
        let k = self.lower_bound(word.as_str());
        if k < self.words.len() && !precedes(word.as_str(), self.words[k].as_str()) {
            proof {
                if self.seq()[k as int] != word@ {
                    lemma_lex_total(self.seq()[k as int], word@);
                }
                assert(self.seq()[k as int] == word@);
                assert(self@ =~= self@.insert(word@));
            }
            return false;
        }
        let ghost before = self.seq();
        let ghost w = word@;
        self.words.insert(k, word);
        proof {
            let after = self.seq();
            assert(after =~= before.insert(k as int, w));
            assert forall|i: int, j: int| 0 <= i < j < after.len() implies lex_lt(
                #[trigger] after[i],
                #[trigger] after[j],
            ) by {
                if j < k {
                    assert(lex_lt(before[i], before[j]));
                } else if j == k {
                    assert(lex_lt(before[i], w));
                } else if i < k {
                    if j - 1 > k {
                        lemma_lex_transitive(w, before[k as int], before[j - 1]);
                    }
                    lemma_lex_transitive(before[i], w, before[j - 1]);
                } else if i == k {
                    if j - 1 > k {
                        lemma_lex_transitive(w, before[k as int], before[j - 1]);
                    }
                } else {
                    assert(lex_lt(before[i - 1], before[j - 1]));
                }
            }
            assert(!before.to_set().contains(w)) by {
                if before.to_set().contains(w) {
                    let i = choose|i: int| 0 <= i < before.len() && before[i] == w;
                    lemma_lex_irreflexive(w);
                    if i > k {
                        lemma_lex_transitive(w, before[k as int], before[i]);
                    }
                }
            }
            lemma_insert_to_set(before, k as int, w);
        }
        true
    }
}

} // verus!
