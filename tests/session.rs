use wordle_solver::encoding::WordEncoding;
use wordle_solver::feedback::{parse_feedback, pattern_index, PATTERN_COUNT};
use wordle_solver::session::{compute_word_encodings, Session, SessionError};

fn dictionary(words: &[&str]) -> Vec<WordEncoding> {
    let owned: Vec<String> = words.iter().map(|w| w.to_string()).collect();
    compute_word_encodings(&owned).unwrap()
}

#[test]
fn compute_word_encodings_keeps_order() {
    let d = dictionary(&["crane", "pilot", "zesty"]);
    let names: Vec<String> = d.iter().map(|e| e.to_string()).collect();
    assert_eq!(names, vec!["CRANE", "PILOT", "ZESTY"]);
}

#[test]
fn compute_word_encodings_rejects_bad_word() {
    let owned = vec!["crane".to_string(), "toolong".to_string()];
    assert!(compute_word_encodings(&owned).is_err());
}

#[test]
fn new_session_has_every_index() {
    let s = Session::new(dictionary(&["crane", "pilot", "zesty", "abbey"]));
    assert_eq!(*s.possibilities(), vec![0, 1, 2, 3]);
    assert_eq!(s.remaining(), 4);
    assert!(!s.is_solved());
    assert_eq!(s.eligible_guesses(), vec![0, 1, 2, 3]);
}

#[test]
fn apply_feedback_keeps_consistent_candidates() {
    let d = dictionary(&["crane", "crate", "trace", "pilot", "crank"]);
    let mut s = Session::new(d.clone());
    let secret = d[1];
    let guess = d[0];
    let observed = guess.match_result(&secret);
    assert_eq!(s.apply_feedback(&guess, &observed), Ok(()));
    for &j in s.possibilities().iter() {
        assert_eq!(guess.match_result(&d[j]), observed);
    }
    assert!(s.possibilities().contains(&1));
    assert!(!s.possibilities().contains(&3));
    assert!(s.was_guessed(&guess));
    assert!(!s.eligible_guesses().contains(&0));
}

#[test]
fn refiltering_by_same_feedback_changes_nothing() {
    let d = dictionary(&["crane", "crate", "trace", "pilot", "crank", "grate"]);
    let mut s = Session::new(d.clone());
    let guess = d[4];
    let observed = guess.match_result(&d[1]);
    s.apply_feedback(&guess, &observed).unwrap();
    let once = s.possibilities().clone();
    s.apply_feedback(&guess, &observed).unwrap();
    assert_eq!(*s.possibilities(), once);
}

#[test]
fn inconsistent_feedback_is_an_error() {
    let d = dictionary(&["crane", "crate", "pilot"]);
    let mut s = Session::new(d.clone());
    let observed = parse_feedback("MMMMP").unwrap();
    assert_eq!(s.apply_feedback(&d[0], &observed), Err(SessionError::NoConsistentCandidate));
    assert_eq!(*s.possibilities(), vec![0, 1, 2]);
    assert!(!s.was_guessed(&d[0]));
}

#[test]
fn reset_restores_fresh_state() {
    let d = dictionary(&["crane", "crate", "pilot"]);
    let mut s = Session::new(d.clone());
    let observed = d[0].match_result(&d[2]);
    s.apply_feedback(&d[0], &observed).unwrap();
    assert_eq!(*s.possibilities(), vec![2]);
    assert!(s.is_solved());
    s.reset();
    assert_eq!(*s.possibilities(), vec![0, 1, 2]);
    assert!(!s.was_guessed(&d[0]));
}

#[test]
fn match_results_follow_possibilities() {
    let d = dictionary(&["crane", "crate", "pilot"]);
    let s = Session::new(d.clone());
    let r = s.match_results(&d[1]);
    assert_eq!(r.len(), 3);
    for k in 0..3 {
        assert_eq!(r[k], d[1].match_result(&d[k]));
    }
}

fn entropy_of(s: &Session, guess: &WordEncoding) -> f64 {
    let mut counts = vec![0.0f64; PATTERN_COUNT];
    let results = s.match_results(guess);
    for r in results.iter() {
        counts[pattern_index(r)] += 1.0;
    }
    let total = results.len() as f64;
    counts
        .iter()
        .filter(|c| **c > 0.0)
        .map(|c| {
            let p = c / total;
            -p * p.log2()
        })
        .sum()
}

#[test]
fn maximize_entropy_solves_toy_dictionary() {
    let words = ["crane", "slate", "pilot", "crate", "trace"];
    let d = dictionary(&words);
    for secret_idx in 0..d.len() {
        let secret = d[secret_idx];
        let mut s = Session::new(d.clone());
        let mut rounds = 0;
        while !s.is_solved() {
            let mut best: Option<(usize, f64)> = None;
            for i in s.eligible_guesses() {
                let e = entropy_of(&s, &d[i]);
                if e > best.map(|b| b.1).unwrap_or(0.0) {
                    best = Some((i, e));
                }
            }
            let (g, _) = best.expect("a guess that splits the candidates");
            let observed = d[g].match_result(&secret);
            s.apply_feedback(&d[g], &observed).unwrap();
            rounds += 1;
            assert!(rounds <= words.len());
        }
        let found = d[s.possibilities()[0]].to_string();
        assert_eq!(found, secret.to_string());
    }
}
