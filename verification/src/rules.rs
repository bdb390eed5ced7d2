//! The rules of the game, stated over sets of words.

use crate::letters::Letters;
use crate::text::{fold_case, word_len};
use crate::totals::sum_over;
use vstd::prelude::*;

verus! {

/// The minimum length of a play.
pub const MIN_LENGTH: usize = 4;

/// The bonus for playing a pangram.
pub const PANGRAM_BONUS: usize = 7;

/// The possible outcomes of playing a word.
#[derive(Debug, Copy, Clone, PartialEq, Eq, Hash, Structural)]
pub enum PlayResult {
    /// The word is valid and new: it has been added to the played words and the score has
    /// been updated.
    Valid,
    /// The word has already been played.
    AlreadyPlayed,
    /// The word is not among the answers.
    InvalidWord,
    /// The word is shorter than `MIN_LENGTH`.
    InvalidLength,
    /// The word does not use the required letter or has letters that are not allowed.
    InvalidLetters,
}

/// What stays the same during a game: the letters and the answers.
pub struct Puzzle {
    /// The letters of the puzzle.
    pub letters: Letters,
    /// The words that can be played.
    pub answers: Set<Seq<char>>,
}

impl Puzzle {
    /// The answers are finitely many, and each of them is in lower case, at least
    /// `MIN_LENGTH` long, made of the puzzle's letters and holds the required one. The
    /// required letter is not optional as well.
    pub open spec fn wf(self) -> bool {
        &&& self.answers.finite()
        &&& !self.letters.optional.contains(self.letters.required)
        &&& forall|w: Seq<char>| #[trigger]
            self.answers.contains(w) ==> {
                &&& word_len(w) >= MIN_LENGTH
                &&& self.letters.admits(w)
                &&& fold_case(w) == w
            }
    }

    /// Whether a play of `w` can be valid: the word is long enough, its letters are in
    /// order, and it is an answer.
    pub open spec fn accepts(self, w: Seq<char>) -> bool {
        &&& word_len(w) >= MIN_LENGTH
        &&& self.letters.admits(w)
        &&& self.answers.contains(w)
    }

    /// Whether `w` is an answer that holds the required letter and every optional one.
    pub open spec fn is_pangram(self, w: Seq<char>) -> bool {
        &&& self.answers.contains(w)
        &&& w.contains(self.letters.required)
        &&& self.letters.covered_by(w)
    }

    /// What `w` is worth: nothing if it cannot be played; else one point at the minimum
    /// length and its length beyond that, and the bonus on top if it is a pangram.
    pub open spec fn word_score(self, w: Seq<char>) -> nat {
        if !self.accepts(w) {
            0
        } else {
            let base = if word_len(w) == MIN_LENGTH {
                1
            } else {
                word_len(w)
            };
            if self.is_pangram(w) {
                base + PANGRAM_BONUS as nat
            } else {
                base
            }
        }
    }

    /// The scoring of this puzzle as a function of the word.
    pub open spec fn scoring(self) -> spec_fn(Seq<char>) -> nat {
        |w: Seq<char>| self.word_score(w)
    }

    /// The score of a game in which every answer has been played.
    pub open spec fn max_score(self) -> nat {
        sum_over(self.answers, self.scoring())
    }
}

/// A game in progress: the puzzle, the words played so far, and the score.
pub struct GameState {
    /// The puzzle that is played.
    pub puzzle: Puzzle,
    /// The words played so far.
    pub played: Set<Seq<char>>,
    /// The score reached.
    pub score: nat,
}

impl GameState {
    /// The state before the first play.
    pub open spec fn start(puzzle: Puzzle) -> GameState {
        GameState { puzzle, played: Set::empty(), score: 0 }
    }

    /// The puzzle is well formed, only answers have been played, and the score is what the
    /// played words are worth together.
    pub open spec fn wf(self) -> bool {
        &&& self.puzzle.wf()
        &&& self.played.subset_of(self.puzzle.answers)
        &&& self.score == sum_over(self.played, self.puzzle.scoring())
    }

    /// The result of playing `w` in this state. The checks are made in this order: length,
    /// letters, answers, played words.
    pub open spec fn outcome(self, w: Seq<char>) -> PlayResult {
        if word_len(w) < MIN_LENGTH {
            PlayResult::InvalidLength
        } else if !self.puzzle.letters.admits(w) {
            PlayResult::InvalidLetters
        } else if !self.puzzle.answers.contains(w) {
            PlayResult::InvalidWord
        } else if self.played.contains(w) {
            PlayResult::AlreadyPlayed
        } else {
            PlayResult::Valid
        }
    }

    /// The state after playing `w`: a valid play adds the word to the played ones and its
    /// worth to the score, and any other play changes nothing.
    pub open spec fn play(self, w: Seq<char>) -> GameState {
        if self.outcome(w) == PlayResult::Valid {
            GameState {
                puzzle: self.puzzle,
                played: self.played.insert(w),
                score: self.score + self.puzzle.word_score(w),
            }
        } else {
            self
        }
    }

    /// The state after playing the words of `ws` one after the other.
    pub open spec fn play_all(self, ws: Seq<Seq<char>>) -> GameState
        decreases ws.len(),
    {
        if ws.len() == 0 {
            self
        } else {
            self.play_all(ws.drop_last()).play(ws.last())
        }
    }
}

} // verus!
