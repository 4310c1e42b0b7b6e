use wordle_solver::encoding::MatchKind;
use wordle_solver::feedback::{parse_feedback, pattern_index, same_pattern, FeedbackError, PATTERN_COUNT};

#[test]
fn parse_feedback_symbols() {
    let r = parse_feedback("MPNPN").unwrap();
    assert_eq!(
        r,
        [MatchKind::Match, MatchKind::Partial, MatchKind::NoMatch, MatchKind::Partial, MatchKind::NoMatch]
    );
}

#[test]
fn parse_feedback_wrong_length() {
    assert_eq!(parse_feedback("MPN"), Err(FeedbackError::WrongLength { found: 3 }));
    assert_eq!(parse_feedback("MPNPNM"), Err(FeedbackError::WrongLength { found: 6 }));
    assert_eq!(parse_feedback(""), Err(FeedbackError::WrongLength { found: 0 }));
}

#[test]
fn parse_feedback_invalid_symbol() {
    assert_eq!(parse_feedback("MPXPY"), Err(FeedbackError::InvalidSymbol { symbol: 'X' }));
    assert_eq!(parse_feedback("mpnpn"), Err(FeedbackError::InvalidSymbol { symbol: 'm' }));
}

#[test]
fn pattern_index_base_three() {
    let none = [MatchKind::NoMatch; 5];
    let all = [MatchKind::Match; 5];
    assert_eq!(pattern_index(&none), 0);
    assert_eq!(pattern_index(&all), 242);
    // P at position 0 (1), M at position 1 (2*3), P at position 4 (81)
    let r = parse_feedback("PMNNP").unwrap();
    assert_eq!(pattern_index(&r), 1 + 6 + 81);
    assert_eq!(PATTERN_COUNT, 243);
}

#[test]
fn pattern_index_is_a_bijection() {
    let kinds = [MatchKind::NoMatch, MatchKind::Partial, MatchKind::Match];
    let mut seen = vec![false; PATTERN_COUNT];
    for a in kinds {
        for b in kinds {
            for c in kinds {
                for d in kinds {
                    for e in kinds {
                        let i = pattern_index(&[a, b, c, d, e]);
                        assert!(i < PATTERN_COUNT);
                        assert!(!seen[i]);
                        seen[i] = true;
                    }
                }
            }
        }
    }
    assert!(seen.iter().all(|s| *s));
}

#[test]
fn same_pattern_compares_all_positions() {
    let a = parse_feedback("MPNPN").unwrap();
    let b = parse_feedback("MPNPM").unwrap();
    assert!(same_pattern(&a, &a));
    assert!(!same_pattern(&a, &b));
}
