//! What holds of every game, whatever is played.

use crate::rules::{GameState, PlayResult, Puzzle, MIN_LENGTH, PANGRAM_BONUS};
use crate::text::word_len;
use crate::totals::{lemma_sum_empty, lemma_sum_insert, lemma_sum_subset};
use vstd::prelude::*;

verus! {

/// A play leaves the puzzle as it is.
pub proof fn lemma_play_keeps_puzzle(s: GameState, w: Seq<char>)
    ensures
        s.play(w).puzzle == s.puzzle,
{
}

/// A play never lowers the score.
pub proof fn lemma_play_never_lowers_score(s: GameState, w: Seq<char>)
    ensures
        s.play(w).score >= s.score,
{
}

/// A play that is not valid changes nothing.
pub proof fn lemma_rejected_play_changes_nothing(s: GameState, w: Seq<char>)
    requires
        s.outcome(w) != PlayResult::Valid,
    ensures
        s.play(w) == s,
{
}

/// A valid play adds the word to the played ones and its worth to the score.
pub proof fn lemma_valid_play(s: GameState, w: Seq<char>)
    requires
        s.outcome(w) == PlayResult::Valid,
    ensures
        s.play(w).played == s.played.insert(w),
        s.play(w).score == s.score + s.puzzle.word_score(w),
        s.puzzle.accepts(w),
{
}

/// A play of a well-formed state leads to a well-formed state.
pub proof fn lemma_play_keeps_wf(s: GameState, w: Seq<char>)
    requires
        s.wf(),
    ensures
        s.play(w).wf(),
{
    if s.outcome(w) == PlayResult::Valid {
        vstd::set_lib::lemma_set_subset_finite(s.puzzle.answers, s.played);
        lemma_sum_insert(s.played, s.puzzle.scoring(), w);
    }
}

/// The score of a well-formed state is no more than the maximum score of its puzzle.
pub proof fn lemma_score_within_max(s: GameState)
    requires
        s.wf(),
    ensures
        s.score <= s.puzzle.max_score(),
{
    lemma_sum_subset(s.played, s.puzzle.answers, s.puzzle.scoring());
}

/// Whatever words are played one after the other from a well-formed state, the state stays
/// well formed, the puzzle stays as it is, and the score never falls and never goes beyond
/// the maximum score.
pub proof fn lemma_play_all(s: GameState, ws: Seq<Seq<char>>)
    requires
        s.wf(),
    ensures
        s.play_all(ws).wf(),
        s.play_all(ws).puzzle == s.puzzle,
        s.score <= s.play_all(ws).score <= s.puzzle.max_score(),
        s.played.subset_of(s.play_all(ws).played),
    decreases ws.len(),
{
    if ws.len() > 0 {
        lemma_play_all(s, ws.drop_last());
        lemma_play_keeps_wf(s.play_all(ws.drop_last()), ws.last());
    }
    lemma_score_within_max(s.play_all(ws));
}

/// The score after more plays is no less than after fewer.
pub proof fn lemma_score_non_decreasing(s: GameState, ws: Seq<Seq<char>>, n: int)
    requires
        0 <= n <= ws.len(),
    ensures
        s.play_all(ws.take(n)).score <= s.play_all(ws).score,
    decreases ws.len() - n,
{
    if n < ws.len() {
        assert(ws.take(n + 1).drop_last() =~= ws.take(n));
        lemma_score_non_decreasing(s, ws, n + 1);
    } else {
        assert(ws.take(n) =~= ws);
    }
}

/// A word that was played with success is turned down as already played when it is played
/// again at once, and that second play changes nothing.
pub proof fn lemma_play_twice(s: GameState, w: Seq<char>)
    requires
        s.outcome(w) == PlayResult::Valid,
    ensures
        s.play(w).outcome(w) == PlayResult::AlreadyPlayed,
        s.play(w).play(w) == s.play(w),
        s.play(w).play(w).score == s.play(w).score,
{
}

/// To play a word a second time at once never changes the state, whatever the first play
/// gave; and a play that was turned down is turned down again for the same reason.
pub proof fn lemma_replay_changes_nothing(s: GameState, w: Seq<char>)
    ensures
        s.play(w).play(w) == s.play(w),
        s.outcome(w) != PlayResult::Valid ==> s.play(w).outcome(w) == s.outcome(w),
{
}

/// A word shorter than the minimum length is turned down for its length, whatever its letters
/// are.
pub proof fn lemma_short_word(s: GameState, w: Seq<char>)
    requires
        word_len(w) < MIN_LENGTH,
    ensures
        s.outcome(w) == PlayResult::InvalidLength,
        s.play(w) == s,
{
}

/// A word of sufficient length with a character that is no letter of the puzzle is turned
/// down for its letters, whether or not it is an answer.
pub proof fn lemma_foreign_letter(s: GameState, w: Seq<char>)
    requires
        word_len(w) >= MIN_LENGTH,
        !s.puzzle.letters.allows_all(w),
    ensures
        s.outcome(w) == PlayResult::InvalidLetters,
        s.play(w) == s,
{
}

/// A word of sufficient length without the required letter is turned down for its letters.
pub proof fn lemma_required_letter_missing(s: GameState, w: Seq<char>)
    requires
        word_len(w) >= MIN_LENGTH,
        !w.contains(s.puzzle.letters.required),
    ensures
        s.outcome(w) == PlayResult::InvalidLetters,
        s.play(w) == s,
{
}

/// What a word is worth depends on the puzzle alone: it is the same after any plays.
pub proof fn lemma_word_score_ignores_plays(s: GameState, ws: Seq<Seq<char>>, w: Seq<char>)
    ensures
        s.play_all(ws).puzzle.word_score(w) == s.puzzle.word_score(w),
    decreases ws.len(),
{
    if ws.len() > 0 {
        lemma_word_score_ignores_plays(s, ws.drop_last(), w);
    }
}

/// In a well-formed puzzle the words that can be played are the answers; each has at least
/// `MIN_LENGTH` letters and is worth at least one point, and no other word is worth anything.
pub proof fn lemma_answers_are_accepted(p: Puzzle, w: Seq<char>)
    requires
        p.wf(),
    ensures
        p.accepts(w) <==> p.answers.contains(w),
        p.answers.contains(w) ==> word_len(w) >= MIN_LENGTH && p.word_score(w) >= 1,
        !p.answers.contains(w) ==> p.word_score(w) == 0,
{
}

/// In any puzzle a word is worth no more than its length and the bonus, a word shorter than
/// the minimum length is worth nothing, and a word of the minimum length is worth one point
/// or one point and the bonus.
pub proof fn lemma_word_score_bounds(p: Puzzle, w: Seq<char>)
    ensures
        p.word_score(w) <= word_len(w) + PANGRAM_BONUS,
        word_len(w) < MIN_LENGTH ==> p.word_score(w) == 0,
        word_len(w) == MIN_LENGTH ==> p.word_score(w) == 0 || p.word_score(w) == 1
            || p.word_score(w) == 1 + PANGRAM_BONUS,
{
}

/// A puzzle without answers has a maximum score of zero, and no play in it is valid: every
/// word is turned down for its length, for its letters, or as no answer.
pub proof fn lemma_no_answers(s: GameState, w: Seq<char>)
    requires
        s.puzzle.answers == Set::<Seq<char>>::empty(),
    ensures
        s.puzzle.max_score() == 0,
        s.outcome(w) == PlayResult::InvalidLength || s.outcome(w) == PlayResult::InvalidLetters
            || s.outcome(w) == PlayResult::InvalidWord,
        s.play(w) == s,
{
    lemma_sum_empty(s.puzzle.scoring());
}

} // verus!
