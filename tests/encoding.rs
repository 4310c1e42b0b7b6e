use wordle_solver::encoding::{MatchKind, WordEncoding, WordError};
use wordle_solver::feedback::parse_feedback;

fn enc(w: &str) -> WordEncoding {
    WordEncoding::from_string(w).unwrap()
}

fn pattern(s: &str) -> [MatchKind; 5] {
    parse_feedback(s).unwrap()
}

#[test]
fn from_string_upper_cases_letters() {
    let e = enc("crane");
    assert_eq!(e.to_string(), "CRANE");
    assert_eq!(enc("CrAnE").to_string(), "CRANE");
}

#[test]
fn from_string_rejects_wrong_length() {
    assert_eq!(WordEncoding::from_string("four"), Err(WordError::InvalidWordLength));
    assert_eq!(WordEncoding::from_string("sixsix"), Err(WordError::InvalidWordLength));
    assert_eq!(WordEncoding::from_string(""), Err(WordError::InvalidWordLength));
}

#[test]
fn from_string_rejects_non_letters() {
    assert_eq!(WordEncoding::from_string("ab1de"), Err(WordError::InvalidWordLength));
    assert_eq!(WordEncoding::from_string("ab de"), Err(WordError::InvalidWordLength));
    assert_eq!(WordEncoding::from_string("abcdé"), Err(WordError::InvalidWordLength));
}

#[test]
fn to_string_returns_the_word_not_a_constant() {
    assert_eq!(enc("abbey").to_string(), "ABBEY");
    assert_eq!(enc("zesty").to_string(), "ZESTY");
}

#[test]
fn encodings_equal_by_letters() {
    assert!(enc("crane") == enc("CRANE"));
    assert!(enc("crane") != enc("crate"));
}

#[test]
fn duplicate_letters_speed_against_erase() {
    let r = enc("SPEED").match_result(&enc("ERASE"));
    assert_eq!(r, pattern("PNPPN"));
}

#[test]
fn exact_match_consumes_letter_budget() {
    let r = enc("AABCC").match_result(&enc("AEXXA"));
    assert_eq!(r, pattern("MPNNN"));
}

#[test]
fn match_result_identical_words() {
    assert_eq!(enc("crane").match_result(&enc("crane")), pattern("MMMMM"));
}

#[test]
fn match_result_disjoint_words() {
    assert_eq!(enc("crane").match_result(&enc("pilot")), pattern("NNNNN"));
}

#[test]
fn match_result_surplus_guess_letters_are_absent() {
    // secret has one E; only the first unmatched E of the guess is partial
    assert_eq!(enc("eerie").match_result(&enc("crane")), pattern("NNPNM"));
    assert_eq!(enc("geese").match_result(&enc("those")), pattern("NNNMM"));
}

#[test]
fn match_count_equals_shared_positions() {
    let words = ["crane", "crate", "speed", "erase", "aabcc", "aexxa", "geese", "those", "llama"];
    for g in words.iter() {
        for s in words.iter() {
            let r = enc(g).match_result(&enc(s));
            let matches = r.iter().filter(|k| **k == MatchKind::Match).count();
            let same = g.chars().zip(s.chars()).filter(|(a, b)| a == b).count();
            assert_eq!(matches, same, "{} against {}", g, s);
        }
    }
}

#[test]
fn match_kind_labels() {
    assert_eq!(MatchKind::NoMatch.label(), "NoMatch");
    assert_eq!(MatchKind::Partial.label(), "Partial");
    assert_eq!(MatchKind::Match.label(), "Match");
}
