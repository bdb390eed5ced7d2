//! From a list of candidate words to the answers of a puzzle.

use crate::letters::{LetterSet, Letters};
use crate::rules::MIN_LENGTH;
use crate::text::{
    ascii_lowercase, char_count, contains_char, fold_case, lemma_fold_case_idempotent, word_len,
};
use crate::wordset::WordSet;
use vstd::prelude::*;

verus! {

/// Whether `w` is the lower-case form of one of `words`.
pub open spec fn listed(w: Seq<char>, words: Seq<Seq<char>>) -> bool {
    exists|i: int| 0 <= i < words.len() && fold_case(#[trigger] words[i]) == w
}

/// Whether `w` is an answer of the puzzle with these letters: the lower-case form of a
/// candidate and of no excluded word, made of the puzzle's letters only, with the required
/// letter in it, and at least `MIN_LENGTH` long.
pub open spec fn is_answer(
    w: Seq<char>,
    letters: Letters,
    candidates: Seq<Seq<char>>,
    excluded: Seq<Seq<char>>,
) -> bool {
    &&& listed(w, candidates)
    &&& !listed(w, excluded)
    &&& letters.allows_all(w)
    &&& w.contains(letters.required)
    &&& word_len(w) >= MIN_LENGTH
}

/// The answers of the puzzle with these letters.
pub open spec fn answer_set(
    letters: Letters,
    candidates: Seq<Seq<char>>,
    excluded: Seq<Seq<char>>,
) -> Set<Seq<char>> {
    Set::new(|w: Seq<char>| is_answer(w, letters, candidates, excluded))
}

/// One more word in a list adds its lower-case form to what is listed, and nothing else.
pub proof fn lemma_listed_push(words: Seq<Seq<char>>, last: Seq<char>)
    ensures
        forall|w: Seq<char>| #[trigger]
            listed(w, words.push(last)) <==> (listed(w, words) || w == fold_case(last)),
{
    let next = words.push(last);
    assert forall|w: Seq<char>| #[trigger]
        listed(w, next) <==> (listed(w, words) || w == fold_case(last)) by {
        if listed(w, words) {
            let j = choose|j: int| 0 <= j < words.len() && fold_case(#[trigger] words[j]) == w;
            assert(fold_case(next[j]) == w);
        }
        if w == fold_case(last) {
            assert(fold_case(next[words.len() as int]) == w);
        }
        if listed(w, next) {
            let j = choose|j: int| 0 <= j < next.len() && fold_case(#[trigger] next[j]) == w;
            if j < words.len() {
                assert(fold_case(words[j]) == w);
            }
        }
    }
}

/// The lower-case forms of a list of words are finitely many.
pub proof fn lemma_listed_finite(words: Seq<Seq<char>>)
    ensures
        Set::new(|w: Seq<char>| listed(w, words)).finite(),
    decreases words.len(),
{
    let all = Set::new(|w: Seq<char>| listed(w, words));
    if words.len() == 0 {
        assert(all =~= Set::<Seq<char>>::empty());
    } else {
        let rest = Set::new(|w: Seq<char>| listed(w, words.drop_last()));
        lemma_listed_finite(words.drop_last());
        lemma_listed_push(words.drop_last(), words.last());
        assert(words.drop_last().push(words.last()) =~= words);
        assert(all =~= rest.insert(fold_case(words.last())));
    }
}

/// The answers of a puzzle are finitely many.
pub proof fn lemma_answer_set_finite(
    letters: Letters,
    candidates: Seq<Seq<char>>,
    excluded: Seq<Seq<char>>,
)
    ensures
        answer_set(letters, candidates, excluded).finite(),
{
    let all = Set::new(|w: Seq<char>| listed(w, candidates));
    let answers = answer_set(letters, candidates, excluded);
    lemma_listed_finite(candidates);
    assert(answers.subset_of(all));
    vstd::set_lib::lemma_set_subset_finite(all, answers);
}

/// Every answer is in lower case.
pub proof fn lemma_answer_folded(
    w: Seq<char>,
    letters: Letters,
    candidates: Seq<Seq<char>>,
    excluded: Seq<Seq<char>>,
)
    requires
        is_answer(w, letters, candidates, excluded),
    ensures
        fold_case(w) == w,
{
    let i = choose|i: int| 0 <= i < candidates.len() && fold_case(#[trigger] candidates[i]) == w;
    lemma_fold_case_idempotent(candidates[i]);
}

/// The set of the lower-case forms of `words`.
fn fold_all(words: &[String]) -> (folded: WordSet)
    ensures
        folded.wf(),
        forall|w: Seq<char>| folded@.contains(w) <==> listed(w, words.deep_view()),
{
    let mut folded = WordSet::new();
    for i in 0..words.len()
        invariant
            folded.wf(),
            forall|w: Seq<char>|
                folded@.contains(w) <==> listed(w, words.deep_view().take(i as int)),
    {
        folded.insert(ascii_lowercase(words[i].as_str()));
        proof {
            let seen = words.deep_view().take(i as int);
            lemma_listed_push(seen, words.deep_view()[i as int]);
            assert(words.deep_view().take(i + 1) =~= seen.push(words.deep_view()[i as int]));
        }
    }
    proof {
        assert(words.deep_view().take(words.deep_view().len() as int) =~= words.deep_view());
    }
    folded
}

/// Reduces a list of candidate words to the answers of the puzzle with the given letters.
/// Each candidate is taken in lower case. It is dropped if it is among the excluded words, if
/// it has a character that is no letter of the puzzle, if the required letter is missing in
/// it, or if it is shorter than `MIN_LENGTH`.
pub fn filter_lexicon(
    candidates: &[String],
    excluded: &[String],
    letters: &LetterSet,
) -> (answers: WordSet)
    ensures
        answers.wf(),
        answers@ == answer_set(letters@, candidates.deep_view(), excluded.deep_view()),
{
    let banned = fold_all(excluded);
    let mut answers = WordSet::new();
    for i in 0..candidates.len()
        invariant
            banned.wf(),
            forall|w: Seq<char>| banned@.contains(w) <==> listed(w, excluded.deep_view()),
            answers.wf(),
            answers@ == answer_set(
                letters@,
                candidates.deep_view().take(i as int),
                excluded.deep_view(),
            ),
    {
        let word = ascii_lowercase(candidates[i].as_str());
        let keep = letters.allows_all(word.as_str()) && contains_char(
            word.as_str(),
            letters.required(),
        ) && char_count(word.as_str()) >= MIN_LENGTH && !banned.contains(word.as_str());
        proof {
            let seen = candidates.deep_view().take(i as int);
            lemma_listed_push(seen, candidates.deep_view()[i as int]);
            assert(candidates.deep_view().take(i + 1) =~= seen.push(
                candidates.deep_view()[i as int],
            ));
        }
        if keep {
            answers.insert(word);
        }
        proof {
            let next = candidates.deep_view().take(i + 1);
            assert(answers@ =~= answer_set(letters@, next, excluded.deep_view()));
        }
    }
    proof {
        assert(candidates.deep_view().take(candidates.deep_view().len() as int)
            =~= candidates.deep_view());
    }
    answers
}

} // verus!
