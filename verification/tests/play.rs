use spellingbee::{PlayResult, SpellingBeeGame};

fn word_list(words: &[&str]) -> Vec<String> {
    words.iter().map(|w| w.to_string()).collect()
}

fn cowgirl_game() -> SpellingBeeGame {
    let main = word_list(&[
        "will", "cowgirl", "rail", "roll", "oil", "grill", "logic", "wiggle", "girl", "coil",
        "cool",
    ]);
    SpellingBeeGame::new("clwgro", 'i', &main, &[])
}

#[test]
fn test_score() {
    let main = word_list(&["will", "cowgirl", "rail", "roll", "oil", "grill", "logic"]);
    let mut game: SpellingBeeGame = SpellingBeeGame::new("clwgro", 'i', &main, &[]);
    assert_eq!(game.score(), 0);
    assert_eq!(game.play("will"), PlayResult::Valid);
    assert_eq!(game.score(), 1);
    assert_eq!(game.play("cowgirl"), PlayResult::Valid);
    assert_eq!(game.score(), 15);
    assert_eq!(game.play("rail"), PlayResult::InvalidLetters);
    assert_eq!(game.score(), 15);
    assert_eq!(game.play("roll"), PlayResult::InvalidLetters);
    assert_eq!(game.score(), 15);
    assert_eq!(game.play("clwgi"), PlayResult::InvalidWord);
    assert_eq!(game.score(), 15);
    assert_eq!(game.play("oil"), PlayResult::InvalidLength);
    assert_eq!(game.score(), 15);
    assert_eq!(game.play("cowgirl"), PlayResult::AlreadyPlayed);
    assert_eq!(game.score(), 15);
}

#[test]
fn a_new_game_has_no_score() {
    let game = cowgirl_game();
    assert_eq!(game.score(), 0);
    assert_eq!(game.required_letter(), 'i');
}

#[test]
fn each_outcome_has_its_input() {
    let mut game = cowgirl_game();
    assert_eq!(game.play("girl"), PlayResult::Valid);
    assert_eq!(game.play("girl"), PlayResult::AlreadyPlayed);
    assert_eq!(game.play("oilc"), PlayResult::InvalidWord);
    assert_eq!(game.play("gi"), PlayResult::InvalidLength);
    assert_eq!(game.play("girls"), PlayResult::InvalidLetters);
}

#[test]
fn length_is_checked_before_letters() {
    let mut game = cowgirl_game();
    assert_eq!(game.play("xyz"), PlayResult::InvalidLength);
    assert_eq!(game.play("a"), PlayResult::InvalidLength);
    assert_eq!(game.play(""), PlayResult::InvalidLength);
    assert_eq!(game.play("oil"), PlayResult::InvalidLength);
    assert_eq!(game.score(), 0);
}

#[test]
fn letters_are_checked_before_the_answers() {
    let mut game = cowgirl_game();
    // Listed among the candidates, but not made of the letters.
    assert_eq!(game.play("rail"), PlayResult::InvalidLetters);
    // In no list at all.
    assert_eq!(game.play("zzzz"), PlayResult::InvalidLetters);
    assert_eq!(game.play("cowgirls"), PlayResult::InvalidLetters);
    // Made of the letters, without the required one.
    assert_eq!(game.play("cool"), PlayResult::InvalidLetters);
    assert_eq!(game.play("roll"), PlayResult::InvalidLetters);
    assert_eq!(game.score(), 0);
}

#[test]
fn answers_are_checked_before_the_played_words() {
    let mut game = cowgirl_game();
    assert_eq!(game.play("clwgi"), PlayResult::InvalidWord);
    assert_eq!(game.play("clwgi"), PlayResult::InvalidWord);
    assert_eq!(game.play("iiii"), PlayResult::InvalidWord);
    assert_eq!(game.score(), 0);
}

#[test]
fn a_word_played_twice_counts_once() {
    let mut game = cowgirl_game();
    assert_eq!(game.play("logic"), PlayResult::Valid);
    let after_first = game.score();
    assert_eq!(after_first, 5);
    assert_eq!(game.play("logic"), PlayResult::AlreadyPlayed);
    assert_eq!(game.score(), after_first);
}

#[test]
fn a_rejected_play_changes_nothing() {
    let mut game = cowgirl_game();
    assert_eq!(game.play("will"), PlayResult::Valid);
    let before = game.clone();
    for word in ["oil", "rail", "roll", "clwgi", "will", "WILL", ""] {
        assert_ne!(game.play(word), PlayResult::Valid);
        assert_eq!(game, before);
    }
}

#[test]
fn the_score_never_falls_and_stays_within_the_maximum() {
    let mut game = cowgirl_game();
    let max = game.max_score();
    let mut last = game.score();
    for word in [
        "will", "oil", "cowgirl", "cowgirl", "rail", "grill", "clwgi", "logic", "wiggle", "girl",
        "coil", "roll", "will",
    ] {
        game.play(word);
        assert!(game.score() >= last);
        assert!(game.score() <= max);
        assert_eq!(game.max_score(), max);
        last = game.score();
    }
    assert_eq!(game.score(), max);
}

#[test]
fn a_play_is_not_normalised() {
    let mut game = cowgirl_game();
    assert_eq!(game.play("WILL"), PlayResult::InvalidLetters);
    assert_eq!(game.play("Will"), PlayResult::InvalidLetters);
    assert_eq!(game.play("will"), PlayResult::Valid);
}

#[test]
fn an_empty_answer_set_rejects_every_word() {
    let mut game = SpellingBeeGame::new("clwgro", 'i', &[], &[]);
    assert_eq!(game.max_score(), 0);
    assert_eq!(game.play("will"), PlayResult::InvalidWord);
    assert_eq!(game.play("cowgirl"), PlayResult::InvalidWord);
    assert_eq!(game.play("oil"), PlayResult::InvalidLength);
    assert_eq!(game.play("rail"), PlayResult::InvalidLetters);
    assert_eq!(game.score(), 0);
    assert!(!game.is_pangram("cowgirl"));
}

#[test]
fn games_with_the_same_plays_are_equal() {
    let mut one = cowgirl_game();
    let mut other = cowgirl_game();
    assert_eq!(one, other);
    one.play("will");
    assert_ne!(one, other);
    one.play("girl");
    other.play("girl");
    other.play("will");
    assert_eq!(one, other);
}

#[test]
fn length_counts_letters() {
    let main = word_list(&["éiéié", "éiéi", "iéi", "éi"]);
    let mut game = SpellingBeeGame::new("é", 'i', &main, &[]);
    // Two letters in three bytes, and three letters in four bytes.
    assert_eq!(game.play("éi"), PlayResult::InvalidLength);
    assert_eq!(game.play("iéi"), PlayResult::InvalidLength);
    assert_eq!(game.play("ééé"), PlayResult::InvalidLength);
    assert!(!game.is_valid_word("iéi"));
    assert_eq!(game.score_word("iéi"), 0);
    assert_eq!(game.score(), 0);
    // Four letters in six bytes.
    assert_eq!(game.play("éiéi"), PlayResult::Valid);
    assert_eq!(game.score(), 1 + 7);
    // Five letters in eight bytes.
    assert_eq!(game.play("éiéié"), PlayResult::Valid);
    assert_eq!(game.score(), 8 + 5 + 7);
    assert_eq!(game.max_score(), 20);
}

#[test]
fn a_short_word_beyond_ascii_is_no_answer() {
    let main = word_list(&["iéi"]);
    let mut game = SpellingBeeGame::new("é", 'i', &main, &[]);
    assert!(!game.is_valid_word("iéi"));
    assert_eq!(game.max_score(), 0);
    assert_eq!(game.play("iéi"), PlayResult::InvalidLength);
    assert_eq!(game.score(), 0);
}
