use vstd::prelude::*;
use crate::feedback::same_pattern;
use crate::encoding::{MatchKind, MatchResult, WordEncoding, WordError, is_word, pattern_of, upper};

verus! {

/// Why feedback could not be applied to a session.
#[derive(Clone, Copy, Debug, PartialEq, Eq, Structural)]
pub enum SessionError {
    /// No remaining candidate gives the observed feedback for the guess.
    NoConsistentCandidate,
}

/// The candidates among `poss` (indices into `words`) that give feedback `r`
/// when `g` is guessed against them.
pub open spec fn consistent(
    poss: Seq<usize>,
    words: Seq<Seq<char>>,
    g: Seq<char>,
    r: Seq<MatchKind>,
) -> Seq<usize> {
    poss.filter(|j: usize| pattern_of(g, words[j as int]) == r)
}

/// All indices of a dictionary of `n` words, in order.
pub open spec fn all_indices(n: nat) -> Seq<usize> {
    Seq::new(n, |i: int| i as usize)
}

/// Indices `i < n` whose word is not among `guessed`, in order.
pub open spec fn unguessed(words: Seq<Seq<char>>, guessed: Seq<Seq<char>>, n: int) -> Seq<usize>
    decreases n,
{
    if n <= 0 {
        Seq::empty()
    } else if guessed.contains(words[n - 1]) {
        unguessed(words, guessed, n - 1)
    } else {
        unguessed(words, guessed, n - 1).push((n - 1) as usize)
    }
}

/// Filtering a candidate list a second time by the same guess and feedback
/// changes nothing: the consistent candidates are a fixed point of the filter.
pub proof fn lemma_refilter_unchanged(
    poss: Seq<usize>,
    words: Seq<Seq<char>>,
    g: Seq<char>,
    r: Seq<MatchKind>,
)
    ensures
        consistent(consistent(poss, words, g, r), words, g, r) == consistent(poss, words, g, r),
    decreases poss.len(),
{
    let f = |j: usize| pattern_of(g, words[j as int]) == r;
    if poss.len() > 0 {
        lemma_refilter_unchanged(poss.drop_last(), words, g, r);
        let x = poss.last();
        let sub = poss.drop_last().filter(f);
        assert(poss.drop_last().push(x) =~= poss);
        poss.drop_last().lemma_filter_push(x, f);
        if f(x) {
            sub.lemma_filter_push(x, f);
        }
    }
}

/// Encodes each word of a list, in order; fails on the first word that is not
/// five ASCII letters.
pub fn compute_word_encodings(words: &Vec<String>) -> (r: Result<Vec<WordEncoding>, WordError>)
    ensures
        r is Ok <==> forall|i: int| 0 <= i < words@.len() ==> is_word(#[trigger] words@[i]@),
        r matches Ok(v) ==> v@.len() == words@.len() && forall|i: int|
            0 <= i < words@.len() ==> #[trigger] v@[i]@ == words@[i]@.map_values(
                |c: char| upper(c),
            ),
{
    let mut encodings: Vec<WordEncoding> = Vec::new();
    let mut i: usize = 0;
    while i < words.len()
        invariant
            0 <= i <= words@.len(),
            encodings@.len() == i,
            forall|j: int| 0 <= j < i ==> is_word(#[trigger] words@[j]@),
            forall|j: int|
                0 <= j < i ==> #[trigger] encodings@[j]@ == words@[j]@.map_values(
                    |c: char| upper(c),
                ),
        decreases words@.len() - i,
    {
        match WordEncoding::from_string(words[i].as_str()) {
            Ok(e) => {
                encodings.push(e);
            },
            Err(err) => {
                return Err(err);
            },
        }
        i = i + 1;
    }
    Ok(encodings)
}

/// The live state of one solve: the dictionary, the candidates still
/// consistent with all feedback so far, and the words already guessed.
pub struct Session {
    dictionary: Vec<WordEncoding>,
    possibilities: Vec<usize>,
    guessed: Vec<WordEncoding>,
}

impl Session {
    #[verifier::type_invariant]
    spec fn well_formed(self) -> bool {
        forall|k: int|
            0 <= k < self.possibilities@.len() ==> #[trigger] self.possibilities@[k]
                < self.dictionary@.len()
    }

    /// The dictionary's words, by index.
    pub closed spec fn words(&self) -> Seq<Seq<char>> {
        self.dictionary@.map_values(|e: WordEncoding| e@)
    }

    /// Indices of the candidates still possible, in dictionary order.
    pub closed spec fn possible(&self) -> Seq<usize> {
        self.possibilities@
    }

    /// The words guessed so far in this solve, oldest first.
    pub closed spec fn guesses(&self) -> Seq<Seq<char>> {
        self.guessed@.map_values(|e: WordEncoding| e@)
    }

    fn full_range(n: usize) -> (r: Vec<usize>)
        ensures
            r@ == all_indices(n as nat),
    {
        let mut r: Vec<usize> = Vec::new();
        let mut i: usize = 0;
        while i < n
            invariant
                0 <= i <= n,
                r@ == all_indices(i as nat),
            decreases n - i,
        {
            r.push(i);
            i = i + 1;
            proof {
                assert(r@ =~= all_indices(i as nat));
            }
        }
        r
    }

    /// A fresh solve over `dictionary`: every word is possible, none guessed.
    pub fn new(dictionary: Vec<WordEncoding>) -> (s: Session)
        ensures
            s.words() == dictionary@.map_values(|e: WordEncoding| e@),
            s.possible() == all_indices(dictionary@.len()),
            s.guesses() == Seq::<Seq<char>>::empty(),
    {
        let n = dictionary.len();
        let possibilities = Self::full_range(n);
        let s = Session { dictionary, possibilities, guessed: Vec::new() };
        proof {
            assert(s.guesses() =~= Seq::<Seq<char>>::empty());
        }
        s
    }

    /// Starts the solve over: every word possible again, the guess history cleared.
    pub fn reset(&mut self)
        ensures
            final(self).words() == old(self).words(),
            final(self).possible() == all_indices(old(self).words().len()),
            final(self).guesses() == Seq::<Seq<char>>::empty(),
    {
        let n = self.dictionary.len();
        self.possibilities = Self::full_range(n);
        self.guessed = Vec::new();
        proof {
            assert(self.guesses() =~= Seq::<Seq<char>>::empty());
        }
    }

    /// The dictionary, by index.
    pub fn dictionary(&self) -> (r: &Vec<WordEncoding>)
        ensures
            r@.map_values(|e: WordEncoding| e@) == self.words(),
    {
        &self.dictionary
    }

    /// Indices of the candidates still possible, in dictionary order.
    pub fn possibilities(&self) -> (r: &Vec<usize>)
        ensures
            r@ == self.possible(),
            forall|k: int| 0 <= k < r@.len() ==> #[trigger] r@[k] < self.words().len(),
    {
        proof {
            use_type_invariant(self);
        }
        &self.possibilities
    }

    /// Number of candidates still possible.
    pub fn remaining(&self) -> (n: usize)
        ensures
            n == self.possible().len(),
    {
        self.possibilities.len()
    }

    /// Whether exactly one candidate is left.
    pub fn is_solved(&self) -> (r: bool)
        ensures
            r == (self.possible().len() == 1),
    {
        self.possibilities.len() == 1
    }

    /// Whether `w` has already been guessed in this solve.
    pub fn was_guessed(&self, w: &WordEncoding) -> (r: bool)
        ensures
            r == self.guesses().contains(w@),
    {
        let mut i: usize = 0;
        while i < self.guessed.len()
            invariant
                0 <= i <= self.guessed@.len(),
                forall|k: int| 0 <= k < i ==> self.guessed@[k]@ != w@,
            decreases self.guessed@.len() - i,
        {
            if self.guessed[i] == *w {
                proof {
                    assert(self.guesses()[i as int] == w@);
                }
                return true;
            }
            i = i + 1;
        }
        proof {
            if self.guesses().contains(w@) {
                let k = choose|k: int| 0 <= k < self.guesses().len() && self.guesses()[k] == w@;
                assert(self.guessed@[k]@ == w@);
            }
        }
        false
    }

    /// Indices of the dictionary words that may still be proposed: those not yet
    /// guessed in this solve, in dictionary order.
    pub fn eligible_guesses(&self) -> (r: Vec<usize>)
        ensures
            r@ == unguessed(self.words(), self.guesses(), self.words().len() as int),
    {
        let mut r: Vec<usize> = Vec::new();
        let mut i: usize = 0;
        while i < self.dictionary.len()
            invariant
                0 <= i <= self.dictionary@.len(),
                r@ == unguessed(self.words(), self.guesses(), i as int),
            decreases self.dictionary@.len() - i,
        {
            if !self.was_guessed(&self.dictionary[i]) {
                r.push(i);
            }
            i = i + 1;
        }
        r
    }

    /// Feedback of `guess` against each possible candidate, in the order of
    /// `possible()`.
    pub fn match_results(&self, guess: &WordEncoding) -> (r: Vec<MatchResult>)
        ensures
            r@.len() == self.possible().len(),
            forall|k: int|
                0 <= k < r@.len() ==> #[trigger] r@[k]@ == pattern_of(
                    guess@,
                    self.words()[self.possible()[k] as int],
                ),
    {
        proof {
            use_type_invariant(self);
        }
        let mut r: Vec<MatchResult> = Vec::new();
        let mut k: usize = 0;
        while k < self.possibilities.len()
            invariant
                0 <= k <= self.possibilities@.len(),
                r@.len() == k,
                forall|j: int|
                    0 <= j < self.possibilities@.len() ==> #[trigger] self.possibilities@[j]
                        < self.dictionary@.len(),
                forall|j: int|
                    0 <= j < k ==> #[trigger] r@[j]@ == pattern_of(
                        guess@,
                        self.words()[self.possible()[j] as int],
                    ),
            decreases self.possibilities@.len() - k,
        {
            let j = self.possibilities[k];
            r.push(guess.match_result(&self.dictionary[j]));
            k = k + 1;
        }
        r
    }

    /// Records `guess` and keeps only the candidates that give `observed` for it.
    /// Where none would remain, the session is left as it was and the error says so.
    pub fn apply_feedback(&mut self, guess: &WordEncoding, observed: &MatchResult) -> (r: Result<
        (),
        SessionError,
    >)
        ensures
            final(self).words() == old(self).words(),
            consistent(old(self).possible(), old(self).words(), guess@, observed@).len() == 0
                <==> r is Err,
            r is Ok ==> final(self).possible() == consistent(
                old(self).possible(),
                old(self).words(),
                guess@,
                observed@,
            ) && final(self).guesses() == old(self).guesses().push(guess@),
            r is Err ==> final(self).possible() == old(self).possible() && final(self).guesses()
                == old(self).guesses(),
    {
        proof {
            use_type_invariant(&*self);
        }
        let ghost f = |j: usize| pattern_of(guess@, self.words()[j as int]) == observed@;
        let mut kept: Vec<usize> = Vec::new();
        let mut k: usize = 0;
        while k < self.possibilities.len()
            invariant
                0 <= k <= self.possibilities@.len(),
                f == (|j: usize| pattern_of(guess@, self.words()[j as int]) == observed@),
                forall|j: int|
                    0 <= j < self.possibilities@.len() ==> #[trigger] self.possibilities@[j]
                        < self.dictionary@.len(),
                kept@ == self.possibilities@.subrange(0, k as int).filter(f),
                forall|j: int| 0 <= j < kept@.len() ==> #[trigger] kept@[j] < self.dictionary@.len(),
            decreases self.possibilities@.len() - k,
        {
            let j = self.possibilities[k];
            let m = guess.match_result(&self.dictionary[j]);
            proof {
                assert(self.words()[j as int] == self.dictionary@[j as int]@);
            }
            let same = same_pattern(&m, observed);
            proof {
                assert(self.possibilities@.subrange(0, k as int).push(j)
                    =~= self.possibilities@.subrange(0, k as int + 1));
                self.possibilities@.subrange(0, k as int).lemma_filter_push(j, f);
                assert(same == f(j));
            }
            if same {
                kept.push(j);
            }
            k = k + 1;
        }
        proof {
            assert(self.possibilities@.subrange(0, k as int) =~= self.possibilities@);
        }
        if kept.len() == 0 {
            return Err(SessionError::NoConsistentCandidate);
        }
        self.possibilities = kept;
        let mut guessed = self.guessed.clone();
        guessed.push(*guess);
        self.guessed = guessed;
        proof {
            assert(self.guesses() =~= old(self).guesses().push(guess@));
        }
        Ok(())
    }
}

} // verus!
