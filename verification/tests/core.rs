use wordle::dict::{Dict, DictError};
use wordle::word::{absent_all, correct_all, LetterMatch, Word, WordError};

use LetterMatch as LM;

#[test]
fn parse_str() {
    let dict = Dict::parse_str("hello world").unwrap();
    assert!(dict.is_valid(&Word::try_from("hello").unwrap()));
    assert!(dict.is_valid(&Word::try_from("world").unwrap()));
    assert!(!dict.is_valid(&Word::try_from("fuzzy").unwrap()));
}

#[test]
fn try_match() {
    let fuzzy = Word::try_from("fuzzy").unwrap();
    // All absent
    assert_eq!(fuzzy.match_word(&Word::try_from("hello").unwrap()), absent_all());
    // One correct
    assert_eq!(
        fuzzy.match_word(&Word::try_from("testy").unwrap()),
        [LM::Absent, LM::Absent, LM::Absent, LM::Absent, LM::Correct],
    );
    // Present
    assert_eq!(
        fuzzy.match_word(&Word::try_from("u00u0").unwrap()),
        [LM::Present, LM::Absent, LM::Absent, LM::Absent, LM::Absent],
    );
}

#[test]
fn test_hash() {
    assert_eq!(Word::try_from("AAAAA").unwrap().hash(), 0x0000004141414141);
    assert_eq!(Word::try_from("aaaaa").unwrap().hash(), 0x0000006161616161);
}

#[test]
fn print() {
    let fuzzy = Word::try_from("fuzzy").unwrap();
    let words = [
        &Word::try_from("testy").unwrap(),
        &Word::try_from("hello").unwrap(),
        &Word::try_from("fizyk").unwrap(),
    ];
    for w in &words {
        let matches = fuzzy.match_word(w);
        println!("{}", w.format(matches));
    }
}

#[test]
fn self_match_is_all_correct() {
    let fuzzy = Word::try_from("fuzzy").unwrap();
    assert_eq!(fuzzy.match_word(&fuzzy), correct_all());
    let other = Word::try_from("abcba").unwrap();
    assert_eq!(other.match_word(&other), correct_all());
}

#[test]
fn disjoint_words_are_all_absent() {
    let hidden = Word::try_from("abcde").unwrap();
    let guess = Word::try_from("fghij").unwrap();
    assert_eq!(hidden.match_word(&guess), absent_all());
}

#[test]
fn duplicate_letters_are_bounded() {
    // The hidden word holds two 'z'; both are consumed by the exact
    // matches, so every other 'z' in the guess is absent.
    let fuzzy = Word::try_from("fuzzy").unwrap();
    assert_eq!(
        fuzzy.match_word(&Word::try_from("zzzzz").unwrap()),
        [LM::Absent, LM::Absent, LM::Correct, LM::Correct, LM::Absent],
    );
    // Two 'b' in the hidden word: one exact match and one misplaced
    // occurrence are marked, nothing more.
    let abbey = Word::try_from("abbey").unwrap();
    assert_eq!(
        abbey.match_word(&Word::try_from("babes").unwrap()),
        [LM::Present, LM::Present, LM::Correct, LM::Correct, LM::Absent],
    );
}

#[test]
fn rotated_word_is_all_present() {
    let hidden = Word::try_from("abcde").unwrap();
    let guess = Word::try_from("eabcd").unwrap();
    assert_eq!(hidden.match_word(&guess), wordle::word::present_all());
}

#[test]
fn status_predicates() {
    assert!(LM::Correct.is_correct());
    assert!(!LM::Correct.is_present());
    assert!(!LM::Correct.is_absent());
    assert!(LM::Present.is_present());
    assert!(LM::Absent.is_absent());
}

#[test]
fn contains_and_contains_at() {
    let fuzzy = Word::try_from("fuzzy").unwrap();
    assert!(fuzzy.contains('z'));
    assert!(fuzzy.contains('f'));
    assert!(!fuzzy.contains('a'));
    assert!(fuzzy.contains_at('y', 4));
    assert!(!fuzzy.contains_at('y', 0));
}

#[test]
fn last_letter_changes_hash() {
    let a = Word::try_from("aaaaa").unwrap();
    let b = Word::try_from("aaaab").unwrap();
    assert_ne!(a.hash(), b.hash());
    assert_eq!(b.hash(), 0x0000006261616161);
}

#[test]
fn too_short_words_are_rejected() {
    assert_eq!(Word::try_from(""), Err(WordError::TooShort(0)));
    assert_eq!(Word::try_from("abc"), Err(WordError::TooShort(3)));
    assert_eq!(Word::try_from("abcd"), Err(WordError::TooShort(4)));
    // Five characters or more succeed; extra characters are discarded.
    let five = Word::try_from("abcde").unwrap();
    let six = Word::try_from("abcdef").unwrap();
    assert_eq!(five, six);
    assert_eq!(five.hash(), six.hash());
}

#[test]
fn membership_round_trip() {
    let mut dict = Dict::new();
    let fuzzy = Word::try_from("fuzzy").unwrap();
    let hello = Word::try_from("hello").unwrap();
    assert!(!dict.is_valid(&fuzzy));
    dict.add_word(&fuzzy);
    assert!(dict.is_valid(&fuzzy));
    assert!(!dict.is_valid(&hello));
    dict.add_word(&fuzzy);
    assert!(dict.is_valid(&fuzzy));
}

#[test]
fn add_words_records_every_word() {
    let mut dict = Dict::new();
    let words = [
        Word::try_from("fuzzy").unwrap(),
        Word::try_from("hello").unwrap(),
    ];
    dict.add_words(&words);
    assert!(dict.is_valid(&words[0]));
    assert!(dict.is_valid(&words[1]));
    assert!(!dict.is_valid(&Word::try_from("world").unwrap()));
}

#[test]
fn parse_fails_atomically_on_short_token() {
    let r = Dict::parse_str("hello cat world");
    assert_eq!(r.unwrap_err(), DictError::Word(WordError::TooShort(3)));
}

#[test]
fn parse_accepts_empty_and_blank_text() {
    let empty = Dict::parse_str("").unwrap();
    assert!(!empty.is_valid(&Word::try_from("hello").unwrap()));
    let blank = Dict::parse_str(" \t\n  ").unwrap();
    assert!(!blank.is_valid(&Word::try_from("hello").unwrap()));
}

#[test]
fn parse_splits_on_mixed_whitespace() {
    let dict = Dict::parse_str("hello\tworld\nfuzzy  abbey").unwrap();
    for w in ["hello", "world", "fuzzy", "abbey"] {
        assert!(dict.is_valid(&Word::try_from(w).unwrap()));
    }
    assert!(!dict.is_valid(&Word::try_from("testy").unwrap()));
}

#[test]
fn format_char_styles_by_status() {
    assert_eq!(LM::Correct.format_char('f'), "\u{1b}[32mf\u{1b}[39m");
    assert_eq!(LM::Present.format_char('f'), "\u{1b}[33mf\u{1b}[39m");
    assert_eq!(LM::Absent.format_char('f'), "f");
}

#[test]
fn format_styles_each_position() {
    let fuzzy = Word::try_from("fuzzy").unwrap();
    let guess = Word::try_from("fyyyy").unwrap();
    // f and the last y match exactly; the exact match consumes the one
    // y of the hidden word, so the misplaced y's are all absent.
    let matches = fuzzy.match_word(&guess);
    assert_eq!(
        matches,
        [LM::Correct, LM::Absent, LM::Absent, LM::Absent, LM::Correct],
    );
    assert_eq!(
        guess.format(matches),
        "\u{1b}[32mf\u{1b}[39myyy\u{1b}[32my\u{1b}[39m",
    );
}
