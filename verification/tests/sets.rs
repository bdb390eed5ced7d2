use spellingbee::letters::LetterSet;
use spellingbee::text::{char_count, contains_char, precedes};
use spellingbee::wordset::WordSet;

#[test]
fn the_length_of_a_word_is_counted_in_letters() {
    assert_eq!(char_count(""), 0);
    assert_eq!(char_count("will"), 4);
    assert_eq!(char_count("cowgirl"), 7);
    assert_eq!(char_count("é"), 1);
    assert_eq!(char_count("iéi"), 3);
    assert_eq!(char_count("日本"), 2);
}

#[test]
fn a_character_is_found_where_it_occurs() {
    assert!(contains_char("cowgirl", 'c'));
    assert!(contains_char("cowgirl", 'l'));
    assert!(contains_char("cowgirl", 'g'));
    assert!(!contains_char("cowgirl", 'a'));
    assert!(!contains_char("cowgirl", 'C'));
    assert!(!contains_char("", 'a'));
    assert!(contains_char("naïve", 'ï'));
}

#[test]
fn words_are_ordered_letter_by_letter() {
    assert!(precedes("", "a"));
    assert!(!precedes("", ""));
    assert!(!precedes("a", ""));
    assert!(precedes("a", "b"));
    assert!(!precedes("b", "a"));
    assert!(precedes("coil", "cowgirl"));
    assert!(!precedes("cowgirl", "coil"));
    assert!(precedes("will", "willow"));
    assert!(!precedes("willow", "will"));
    assert!(!precedes("will", "will"));
    assert!(precedes("Will", "will"));
    assert!(precedes("z", "é"));
}

#[test]
fn the_order_of_words_is_that_of_strings() {
    let words = ["", "a", "ab", "b", "will", "willow", "Will", "é", "z", "日本", "cowgirl"];
    for a in words {
        for b in words {
            assert_eq!(precedes(a, b), a < b);
        }
    }
}

#[test]
fn a_new_word_set_is_empty() {
    let set = WordSet::new();
    assert_eq!(set.len(), 0);
    assert!(!set.contains("will"));
    assert!(!set.contains(""));
}

#[test]
fn a_word_set_holds_each_word_once() {
    let mut set = WordSet::new();
    assert!(set.insert("will".to_string()));
    assert!(set.insert("cowgirl".to_string()));
    assert!(!set.insert("will".to_string()));
    assert!(set.insert("".to_string()));
    assert!(!set.insert("cowgirl".to_string()));
    assert_eq!(set.len(), 3);
    assert!(set.contains("will"));
    assert!(set.contains("cowgirl"));
    assert!(set.contains(""));
    assert!(!set.contains("wil"));
    assert!(!set.contains("willow"));
}

#[test]
fn a_word_set_is_kept_in_ascending_order() {
    let mut set = WordSet::new();
    for word in ["will", "coil", "grill", "cowgirl", "logic", "coil", "wiggle", "clog"] {
        set.insert(word.to_string());
    }
    let stored: Vec<&str> = (0..set.len()).map(|i| set.get(i)).collect();
    assert_eq!(stored, vec!["clog", "coil", "cowgirl", "grill", "logic", "wiggle", "will"]);
}

#[test]
fn word_sets_with_the_same_words_are_equal() {
    let mut one = WordSet::new();
    let mut other = WordSet::new();
    for word in ["will", "coil", "grill"] {
        one.insert(word.to_string());
    }
    for word in ["grill", "will", "coil", "will"] {
        other.insert(word.to_string());
    }
    assert_eq!(one, other);
    other.insert("logic".to_string());
    assert_ne!(one, other);
}

#[test]
fn a_letter_set_allows_its_letters() {
    let letters = LetterSet::new("clwgro", 'i');
    assert_eq!(letters.required(), 'i');
    for c in "clwgroi".chars() {
        assert!(letters.allows(c));
    }
    for c in "abdz CI".chars() {
        assert!(!letters.allows(c));
    }
    assert!(letters.allows_all("cowgirl"));
    assert!(letters.allows_all("cool"));
    assert!(letters.allows_all(""));
    assert!(!letters.allows_all("cowgirls"));
}

#[test]
fn a_letter_set_is_covered_by_a_word_with_every_optional_letter() {
    let letters = LetterSet::new("clwgro", 'i');
    assert!(letters.covered_by("cowgirl"));
    assert!(letters.covered_by("clwgro"));
    assert!(letters.covered_by("xclwgrox"));
    assert!(!letters.covered_by("cowgil"));
    assert!(!letters.covered_by(""));
    let none = LetterSet::new("", 'i');
    assert!(none.covered_by(""));
    assert!(none.covered_by("iiii"));
}

#[test]
fn letter_sets_with_the_same_letters_are_equal() {
    assert_eq!(LetterSet::new("clwgro", 'i'), LetterSet::new("orgwlc", 'i'));
    assert_eq!(LetterSet::new("clwgro", 'i'), LetterSet::new("ccllwwggrroo", 'i'));
    assert_eq!(LetterSet::new("clwgro", 'i'), LetterSet::new("iclwgroi", 'i'));
    assert_ne!(LetterSet::new("clwgro", 'i'), LetterSet::new("clwgri", 'o'));
}
