//! A game of the spelling bee: the puzzle, the words played so far, and the score.

use crate::laws::lemma_score_within_max;
use crate::letters::{LetterSet, Letters};
use crate::lexicon::{answer_set, filter_lexicon, lemma_answer_folded, lemma_answer_set_finite};
use crate::rules::{GameState, PlayResult, Puzzle, MIN_LENGTH, PANGRAM_BONUS};
use crate::text::{char_count, contains_char, fold_case, word_len};
use crate::totals::{
    lemma_sum_empty, lemma_sum_insert, lemma_sum_member, lemma_sum_prefix, lemma_sum_subset,
    sum_over,
};
use crate::wordset::WordSet;
use vstd::prelude::*;

verus! {

/// The puzzle with the letters built from `optional` and `required`, and with the answers that
/// these letters leave of `candidates` without `excluded`.
pub open spec fn puzzle_of(
    optional: Seq<char>,
    required: char,
    candidates: Seq<Seq<char>>,
    excluded: Seq<Seq<char>>,
) -> Puzzle {
    let letters = Letters::of(optional, required);
    Puzzle { letters, answers: answer_set(letters, candidates, excluded) }
}

/// The puzzle of [`puzzle_of`] is well formed.
pub proof fn lemma_puzzle_of(
    optional: Seq<char>,
    required: char,
    candidates: Seq<Seq<char>>,
    excluded: Seq<Seq<char>>,
)
    ensures
        puzzle_of(optional, required, candidates, excluded).wf(),
{
    let puzzle = puzzle_of(optional, required, candidates, excluded);
    lemma_answer_set_finite(puzzle.letters, candidates, excluded);
    assert forall|w: Seq<char>| #[trigger] puzzle.answers.contains(w) implies {
        &&& word_len(w) >= MIN_LENGTH
        &&& puzzle.letters.admits(w)
        &&& fold_case(w) == w
    } by {
        lemma_answer_folded(w, puzzle.letters, candidates, excluded);
    }
}

/// The puzzle that a set of letters and a set of answers stand for.
spec fn puzzle_view(letters: &LetterSet, answers: &WordSet) -> Puzzle {
    Puzzle { letters: letters@, answers: answers@ }
}

/// What `word` is worth in the puzzle with these letters and answers, or `None` where that is
/// beyond `usize`.
fn checked_word_score(
    letters: &LetterSet,
    answers: &WordSet,
    word: &str,
) -> (points: Option<usize>)
    requires
        answers.wf(),
        puzzle_view(letters, answers).wf(),
    ensures
        match points {
            Some(n) => n == puzzle_view(letters, answers).word_score(word@),
            None => puzzle_view(letters, answers).word_score(word@) > usize::MAX,
        },
{
    if !answers.contains(word) {
        return Some(0);
    }
    let len = char_count(word);
    let base: usize = if len == MIN_LENGTH {
        1
    } else {
        len
    };
    if contains_char(word, letters.required()) && letters.covered_by(word) {
        base.checked_add(PANGRAM_BONUS)
    } else {
        Some(base)
    }
}

/// The score of the game in which every answer has been played, or `None` where that is beyond
/// `usize`.
fn checked_max_score(letters: &LetterSet, answers: &WordSet) -> (max: Option<usize>)
    requires
        answers.wf(),
        puzzle_view(letters, answers).wf(),
    ensures
        match max {
            Some(n) => n == puzzle_view(letters, answers).max_score(),
            None => puzzle_view(letters, answers).max_score() > usize::MAX,
        },
{
    let ghost puzzle = puzzle_view(letters, answers);
    let ghost seq = answers.seq();
    let mut total: usize = 0;
    proof {
        answers.lemma_distinct();
        lemma_sum_empty(puzzle.scoring());
        assert(seq.take(0).to_set() =~= Set::<Seq<char>>::empty());
    }
    let n = answers.len();
    for i in 0..n
        invariant
            answers.wf(),
            puzzle == puzzle_view(letters, answers),
            puzzle.wf(),
            seq == answers.seq(),
            seq.no_duplicates(),
            n == seq.len(),
            total == sum_over(seq.take(i as int).to_set(), puzzle.scoring()),
    {
        let sum = match checked_word_score(letters, answers, answers.get(i)) {
            Some(points) => total.checked_add(points),
            None => None,
        };
        proof {
            let next = seq.take(i + 1);
            lemma_sum_prefix(seq, puzzle.scoring(), i as int);
            assert(next.to_set().subset_of(puzzle.answers)) by {
                assert forall|w: Seq<char>| next.to_set().contains(w) implies
                    puzzle.answers.contains(w) by {
                    let j = choose|j: int| 0 <= j < next.len() && next[j] == w;
                    assert(seq[j] == w);
                }
            }
            lemma_sum_subset(next.to_set(), puzzle.answers, puzzle.scoring());
        }
        match sum {
            Some(more) => {
                total = more;
            },
            None => {
                return None;
            },
        }
    }
    proof {
        assert(seq.take(seq.len() as int) =~= seq);
    }
    Some(total)
}

/// A game of the spelling bee, with optional letters and a required one. Lets users play words
/// and check them for validity, keeping track of the score.
#[derive(Debug, Clone, PartialEq, Eq, Hash)]
pub struct SpellingBeeGame {
    /// The letters of the puzzle.
    letters: LetterSet,
    /// The current score.
    score: usize,
    /// The words played so far.
    played_so_far: WordSet,
    /// The words that the game accepts.
    words: WordSet,
}

impl View for SpellingBeeGame {
    type V = GameState;

    closed spec fn view(&self) -> GameState {
        GameState {
            puzzle: puzzle_view(&self.letters, &self.words),
            played: self.played_so_far@,
            score: self.score as nat,
        }
    }
}

impl SpellingBeeGame {
    /// The stored sets are in order, the state that they stand for is well formed, and the
    /// maximum score fits the score's type.
    pub closed spec fn wf(&self) -> bool {
        &&& self.letters.wf()
        &&& self.words.wf()
        &&& self.played_so_far.wf()
        &&& self@.wf()
        &&& self@.puzzle.max_score() <= usize::MAX
    }

    /// The state of a well-formed game is well formed, and its score is no more than its
    /// maximum score, which fits `usize`.
    pub proof fn lemma_wf(&self)
        requires
            self.wf(),
        ensures
            self@.wf(),
            self@.score <= self@.puzzle.max_score() <= usize::MAX,
    {
        lemma_score_within_max(self@);
    }

    /// Creates a new game from a set of optional letters and a single required letter, with
    /// the answers that these letters leave of `main_words` without `excluded_words`.
    ///
    /// The maximum score of the game has to fit `usize`. Where that is not known,
    /// [`SpellingBeeGame::try_new`] finds out.
    pub fn new(
        optional_letters: &str,
        required_letter: char,
        main_words: &[String],
        excluded_words: &[String],
    ) -> (game: SpellingBeeGame)
        requires
            puzzle_of(
                optional_letters@,
                required_letter,
                main_words.deep_view(),
                excluded_words.deep_view(),
            ).max_score() <= usize::MAX,
        ensures
            game.wf(),
            game@ == GameState::start(
                puzzle_of(
                    optional_letters@,
                    required_letter,
                    main_words.deep_view(),
                    excluded_words.deep_view(),
                ),
            ),
    {
        let letters = LetterSet::new(optional_letters, required_letter);
        let words = filter_lexicon(main_words, excluded_words, &letters);
        let game = SpellingBeeGame { letters, score: 0, played_so_far: WordSet::new(), words };
        proof {
            lemma_puzzle_of(
                optional_letters@,
                required_letter,
                main_words.deep_view(),
                excluded_words.deep_view(),
            );
            lemma_sum_empty(game@.puzzle.scoring());
        }
        game
    }

    /// Creates a new game as [`SpellingBeeGame::new`] does, or none where the maximum score of
    /// the game is beyond `usize`.
    pub fn try_new(
        optional_letters: &str,
        required_letter: char,
        main_words: &[String],
        excluded_words: &[String],
    ) -> (made: Option<SpellingBeeGame>)
        ensures
            made is Some <==> puzzle_of(
                optional_letters@,
                required_letter,
                main_words.deep_view(),
                excluded_words.deep_view(),
            ).max_score() <= usize::MAX,
            made is Some ==> made->0.wf() && made->0@ == GameState::start(
                puzzle_of(
                    optional_letters@,
                    required_letter,
                    main_words.deep_view(),
                    excluded_words.deep_view(),
                ),
            ),
    {
        let letters = LetterSet::new(optional_letters, required_letter);
        let words = filter_lexicon(main_words, excluded_words, &letters);
        proof {
            lemma_puzzle_of(
                optional_letters@,
                required_letter,
                main_words.deep_view(),
                excluded_words.deep_view(),
            );
        }
        match checked_max_score(&letters, &words) {
            Some(_) => {
                let game =
                    SpellingBeeGame { letters, score: 0, played_so_far: WordSet::new(), words };
                proof {
                    lemma_sum_empty(game@.puzzle.scoring());
                }
                Some(game)
            },
            None => None,
        }
    }

    /// Returns the current score.
    ///
    /// Score is computed as follows: a four-letter word is worth one point. Any word longer
    /// than that (words shorter than four letters are not allowed) is worth a point for every
    /// letter it has. If the word uses all of the given letters, it receives an additional
    /// seven points.
    pub fn score(&self) -> (score: usize)
        ensures
            score == self@.score,
    {
        self.score
    }

    /// Accepts a given word, updating internal state and returning the result of the play.
    pub fn play(&mut self, word: &str) -> (result: PlayResult)
        requires
            old(self).wf(),
        ensures
            final(self).wf(),
            result == old(self)@.outcome(word@),
            final(self)@ == old(self)@.play(word@),
            final(self)@.score >= old(self)@.score,
    {
        if char_count(word) < MIN_LENGTH {
            PlayResult::InvalidLength
        } else if !self.has_valid_letters(word) {
            PlayResult::InvalidLetters
        } else if !self.is_valid_word(word) {
            PlayResult::InvalidWord
        } else if self.played_so_far.contains(word) {
            PlayResult::AlreadyPlayed
        } else {
            let points = self.score_word(word);
            proof {
                let played = self@.played;
                self.played_so_far.lemma_distinct();
                lemma_sum_insert(played, self@.puzzle.scoring(), word@);
                lemma_sum_subset(
                    played.insert(word@),
                    self@.puzzle.answers,
                    self@.puzzle.scoring(),
                );
            }
            self.played_so_far.insert(word.to_owned());
            self.score = self.score + points;
            PlayResult::Valid
        }
    }

    /// Checks if the given input is valid, in that it only consists of allowed letters.
    pub fn is_valid_partial_input(&self, word: &str) -> (valid: bool)
        ensures
            valid == self@.puzzle.letters.allows_all(word@),
    {
        self.letters.allows_all(word)
    }

    /// Checks if the given word has only the allowed letters and includes the required letter.
    pub fn has_valid_letters(&self, word: &str) -> (valid: bool)
        ensures
            valid == self@.puzzle.letters.admits(word@),
    {
        contains_char(word, self.letters.required()) && self.letters.allows_all(word)
    }

    /// Checks if the given word is in the answer list.
    pub fn is_valid_word(&self, word: &str) -> (valid: bool)
        requires
            self.wf(),
        ensures
            valid == self@.puzzle.answers.contains(word@),
    {
        self.words.contains(word)
    }

    /// Computes the score for a word. See the `score()` function for more on how this is
    /// calculated. Returns 0 for invalid words.
    pub fn score_word(&self, word: &str) -> (points: usize)
        requires
            self.wf(),
        ensures
            points == self@.puzzle.word_score(word@),
    {
        let points = checked_word_score(&self.letters, &self.words, word);
        proof {
            if self@.puzzle.answers.contains(word@) {
                lemma_sum_member(self@.puzzle.answers, self@.puzzle.scoring(), word@);
            }
        }
        points.unwrap()
    }

    /// Returns `true` if this word is both valid and contains every given letter and `false`
    /// otherwise.
    pub fn is_pangram(&self, word: &str) -> (pangram: bool)
        requires
            self.wf(),
        ensures
            pangram == self@.puzzle.is_pangram(word@),
    {
        self.is_valid_word(word) && contains_char(word, self.letters.required())
            && self.letters.covered_by(word)
    }

    /// Returns the required central letter.
    pub fn required_letter(&self) -> (letter: char)
        ensures
            letter == self@.puzzle.letters.required,
    {
        self.letters.required()
    }

    /// Returns the maximum score with all words.
    pub fn max_score(&self) -> (max: usize)
        requires
            self.wf(),
        ensures
            max == self@.puzzle.max_score(),
            self@.score <= max,
    {
        let max = checked_max_score(&self.letters, &self.words);
        proof {
            lemma_score_within_max(self@);
        }
        max.unwrap()
    }
}

} // verus!
