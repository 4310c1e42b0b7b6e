use vstd::prelude::*;

verus! {

/// Outcome of one guessed letter against the secret.
#[derive(Clone, Copy, Debug, PartialEq, Eq, Structural)]
pub enum MatchKind {
    /// The letter does not occur in the secret (or its occurrences are used up).
    NoMatch,
    /// The letter occurs in the secret at another position.
    Partial,
    /// The letter stands at this very position in the secret.
    Match,
}

impl MatchKind {
    /// The outcome's name: `NoMatch`, `Partial` or `Match`.
    pub fn label(&self) -> (r: &'static str)
        ensures
            *self == MatchKind::NoMatch ==> r@ == "NoMatch"@,
            *self == MatchKind::Partial ==> r@ == "Partial"@,
            *self == MatchKind::Match ==> r@ == "Match"@,
    {
        match self {
            MatchKind::NoMatch => "NoMatch",
            MatchKind::Partial => "Partial",
            MatchKind::Match => "Match",
        }
    }
}

/// Feedback for one guess: one outcome per position.
pub type MatchResult = [MatchKind; 5];

/// An upper-case ASCII letter.
pub open spec fn is_upper(c: char) -> bool {
    'A' <= c && c <= 'Z'
}

/// An ASCII letter of either case.
pub open spec fn is_letter(c: char) -> bool {
    is_upper(c) || ('a' <= c && c <= 'z')
}

/// Exactly five ASCII letters.
pub open spec fn is_word(s: Seq<char>) -> bool {
    s.len() == 5 && forall|i: int| 0 <= i < 5 ==> is_letter(#[trigger] s[i])
}

/// Slot of an upper-case letter in the frequency table.
pub open spec fn letter_slot(c: char) -> int {
    c as int - 'A' as int
}

/// ASCII upper-case of a letter; other characters stay as they are.
pub open spec fn upper(c: char) -> char {
    if 'a' <= c && c <= 'z' {
        ((c as u32 - 32) as u8) as char
    } else {
        c
    }
}

/// Number of positions `k < n` where `s[k] == c`.
pub open spec fn count_of(s: Seq<char>, c: char, n: int) -> nat
    decreases n,
{
    if n <= 0 {
        0
    } else {
        count_of(s, c, n - 1) + if s[n - 1] == c { 1nat } else { 0nat }
    }
}

/// Number of positions `k < n` where `a[k] == c` and `a[k] == b[k]`.
pub open spec fn exact_of(a: Seq<char>, b: Seq<char>, c: char, n: int) -> nat
    decreases n,
{
    if n <= 0 {
        0
    } else {
        exact_of(a, b, c, n - 1) + if a[n - 1] == c && a[n - 1] == b[n - 1] {
            1nat
        } else {
            0nat
        }
    }
}

/// Number of positions `k < n` where `a[k] == c` but `a[k] != b[k]`.
pub open spec fn loose_of(a: Seq<char>, b: Seq<char>, c: char, n: int) -> nat
    decreases n,
{
    if n <= 0 {
        0
    } else {
        loose_of(a, b, c, n - 1) + if a[n - 1] == c && a[n - 1] != b[n - 1] {
            1nat
        } else {
            0nat
        }
    }
}

/// Outcome at position `i` of guess `g` against secret `s`.
///
/// A letter in place is a `Match`. Otherwise the letter `c` is `Partial` when
/// fewer earlier misplaced copies of `c` in the guess precede it than the secret
/// has copies of `c` that are not matched in place; else it is `NoMatch`.
pub open spec fn kind_at(g: Seq<char>, s: Seq<char>, i: int) -> MatchKind {
    if g[i] == s[i] {
        MatchKind::Match
    } else if loose_of(g, s, g[i], i) < loose_of(s, g, g[i], s.len() as int) {
        MatchKind::Partial
    } else {
        MatchKind::NoMatch
    }
}

/// Feedback of guess `g` against secret `s`, position by position.
pub open spec fn pattern_of(g: Seq<char>, s: Seq<char>) -> Seq<MatchKind> {
    Seq::new(g.len(), |i: int| kind_at(g, s, i))
}

/// Number of `Match` outcomes in a feedback sequence.
pub open spec fn match_count(r: Seq<MatchKind>) -> nat
    decreases r.len(),
{
    if r.len() == 0 {
        0
    } else {
        match_count(r.drop_last()) + if r.last() == MatchKind::Match { 1nat } else { 0nat }
    }
}

/// Number of positions `k < n` where `a[k] == b[k]`.
pub open spec fn same_count(a: Seq<char>, b: Seq<char>, n: int) -> nat
    decreases n,
{
    if n <= 0 {
        0
    } else {
        same_count(a, b, n - 1) + if a[n - 1] == b[n - 1] { 1nat } else { 0nat }
    }
}

proof fn lemma_count_split(a: Seq<char>, b: Seq<char>, c: char, n: int)
    ensures
        count_of(a, c, n) == exact_of(a, b, c, n) + loose_of(a, b, c, n),
    decreases n,
{
    if n > 0 {
        lemma_count_split(a, b, c, n - 1);
    }
}

proof fn lemma_exact_grows(a: Seq<char>, b: Seq<char>, c: char, m: int, n: int)
    requires
        0 <= m <= n,
    ensures
        exact_of(a, b, c, m) <= exact_of(a, b, c, n),
    decreases n - m,
{
    if m < n {
        lemma_exact_grows(a, b, c, m, n - 1);
    }
}

/// Why a string could not be encoded as a word.
#[derive(Clone, Copy, Debug, PartialEq, Eq, Structural)]
pub enum WordError {
    /// The input is not exactly five ASCII letters.
    InvalidWordLength,
}

/// Every position where a guess agrees with the secret, and only those, is
/// reported as `Match`: the number of `Match` outcomes in the feedback equals the
/// number of positions where the two words hold the same letter.
pub proof fn lemma_match_count(g: Seq<char>, s: Seq<char>)
    requires
        g.len() == 5,
        s.len() == 5,
    ensures
        match_count(pattern_of(g, s)) == same_count(g, s, 5),
{
    lemma_match_count_prefix(g, s, 5);
    assert(pattern_of(g, s).subrange(0, 5) =~= pattern_of(g, s));
}

proof fn lemma_match_count_prefix(g: Seq<char>, s: Seq<char>, n: int)
    requires
        0 <= n <= g.len(),
        g.len() == s.len(),
    ensures
        match_count(pattern_of(g, s).subrange(0, n)) == same_count(g, s, n),
    decreases n,
{
    if n > 0 {
        lemma_match_count_prefix(g, s, n - 1);
        assert(pattern_of(g, s).subrange(0, n).drop_last() =~= pattern_of(g, s).subrange(0, n - 1));
    }
}

fn upper_char(c: char) -> (r: char)
    ensures
        r == upper(c),
        is_letter(c) ==> is_upper(r),
{
    if 'a' <= c && c <= 'z' {
        ((c as u32 - 32) as u8) as char
    } else {
        c
    }
}

/// A five-letter word: its letters in order, and how often each letter occurs.
#[derive(Clone, Copy, Debug)]
pub struct WordEncoding {
    positions: [char; 5],
    frequencies: [u8; 26],
}

impl View for WordEncoding {
    type V = Seq<char>;

    closed spec fn view(&self) -> Seq<char> {
        self.positions@
    }
}

impl WordEncoding {
    /// Every position holds an upper-case letter, and the table counts them.
    #[verifier::type_invariant]
    spec fn well_formed(self) -> bool {
        &&& forall|i: int| 0 <= i < 5 ==> is_upper(#[trigger] self.positions@[i])
        &&& forall|c: char|
            is_upper(c) ==> #[trigger] self.frequencies@[letter_slot(c)] == count_of(
                self.positions@,
                c,
                5,
            )
    }

    fn slot(c: char) -> (r: usize)
        requires
            is_upper(c),
        ensures
            r == letter_slot(c),
            r < 26,
    {
        (c as u32 - 65) as usize
    }

    /// Encodes a word of five ASCII letters, in upper case.
    pub fn from_string(word: &str) -> (r: Result<WordEncoding, WordError>)
        ensures
            r is Ok <==> is_word(word@),
            r matches Ok(e) ==> e@ == word@.map_values(|c: char| upper(c)),
    {
        let n = word.unicode_len();
        if n != 5 {
            return Err(WordError::InvalidWordLength);
        }
        let mut positions: [char; 5] = ['A'; 5];
        let mut i: usize = 0;
        while i < 5
            invariant
                0 <= i <= 5,
                word@.len() == 5,
                forall|k: int| 0 <= k < i ==> is_letter(#[trigger] word@[k]),
                forall|k: int| 0 <= k < i ==> #[trigger] positions@[k] == upper(word@[k]),
                forall|k: int| 0 <= k < 5 ==> is_upper(#[trigger] positions@[k]),
            decreases 5 - i,
        {
            let c = word.get_char(i);
            if !(('a' <= c && c <= 'z') || ('A' <= c && c <= 'Z')) {
                return Err(WordError::InvalidWordLength);
            }
            positions[i] = upper_char(c);
            i = i + 1;
        }
        let mut frequencies: [u8; 26] = [0u8; 26];
        i = 0;
        while i < 5
            invariant
                0 <= i <= 5,
                forall|k: int| 0 <= k < 5 ==> is_upper(#[trigger] positions@[k]),
                forall|c: char|
                    is_upper(c) ==> #[trigger] frequencies@[letter_slot(c)] == count_of(
                        positions@,
                        c,
                        i as int,
                    ),
                forall|k: int| 0 <= k < 26 ==> #[trigger] frequencies@[k] <= i,
            decreases 5 - i,
        {
            let k = Self::slot(positions[i]);
            frequencies[k] = frequencies[k] + 1;
            i = i + 1;
        }
        let e = WordEncoding { positions, frequencies };
        proof {
            assert(e@ =~= word@.map_values(|c: char| upper(c)));
        }
        Ok(e)
    }

    /// The word's letters as a string.
    pub fn to_string(&self) -> (r: String)
        ensures
            r@ == self@,
    {
        chars_to_string(&self.positions)
    }

    /// Feedback of this word, as guess, against `other`, as secret.
    pub fn match_result(&self, other: &WordEncoding) -> (r: MatchResult)
        ensures
            r@ == pattern_of(self@, other@),
    {
        proof {
            use_type_invariant(self);
            use_type_invariant(other);
        }
        let g = self.positions;
        let s = other.positions;
        let mut result: MatchResult = [MatchKind::NoMatch; 5];
        let mut remaining: [u8; 26] = other.frequencies;
        let mut i: usize = 0;
        while i < 5
            invariant
                0 <= i <= 5,
                g@ == self@,
                s@ == other@,
                forall|k: int| 0 <= k < 5 ==> is_upper(#[trigger] g@[k]),
                forall|k: int| 0 <= k < 5 ==> is_upper(#[trigger] s@[k]),
                forall|c: char|
                    is_upper(c) ==> #[trigger] remaining@[letter_slot(c)] == count_of(s@, c, 5)
                        - exact_of(s@, g@, c, i as int),
                forall|k: int|
                    0 <= k < 5 ==> #[trigger] result@[k] == if k < i && g@[k] == s@[k] {
                        MatchKind::Match
                    } else {
                        MatchKind::NoMatch
                    },
            decreases 5 - i,
        {
            if g[i] == s[i] {
                let c = g[i];
                let k = Self::slot(c);
                proof {
                    lemma_count_split(s@, g@, c, 5);
                    lemma_exact_grows(s@, g@, c, i as int + 1, 5);
                }
                result[i] = MatchKind::Match;
                remaining[k] = remaining[k] - 1;
            }
            i = i + 1;
        }
        proof {
            assert forall|c: char| is_upper(c) implies #[trigger] remaining@[letter_slot(c)]
                == loose_of(s@, g@, c, 5) by {
                lemma_count_split(s@, g@, c, 5);
            }
        }
        i = 0;
        while i < 5
            invariant
                0 <= i <= 5,
                g@ == self@,
                s@ == other@,
                forall|k: int| 0 <= k < 5 ==> is_upper(#[trigger] g@[k]),
                forall|k: int| 0 <= k < 5 ==> is_upper(#[trigger] s@[k]),
                forall|c: char|
                    is_upper(c) ==> #[trigger] remaining@[letter_slot(c)] == if loose_of(
                        g@,
                        s@,
                        c,
                        i as int,
                    ) < loose_of(s@, g@, c, 5) {
                        loose_of(s@, g@, c, 5) - loose_of(g@, s@, c, i as int)
                    } else {
                        0
                    },
                forall|k: int| 0 <= k < i ==> #[trigger] result@[k] == kind_at(g@, s@, k),
                forall|k: int|
                    i <= k < 5 ==> #[trigger] result@[k] == if g@[k] == s@[k] {
                        MatchKind::Match
                    } else {
                        MatchKind::NoMatch
                    },
            decreases 5 - i,
        {
            if result[i] == MatchKind::NoMatch {
                let k = Self::slot(g[i]);
                if remaining[k] > 0 {
                    result[i] = MatchKind::Partial;
                    remaining[k] = remaining[k] - 1;
                }
            }
            i = i + 1;
        }
        proof {
            assert(result@ =~= pattern_of(self@, other@));
        }
        result
    }
}

impl PartialEq for WordEncoding {
    /// Two encodings are equal when they hold the same letters in the same order.
    fn eq(&self, other: &WordEncoding) -> (r: bool) {
        let mut i: usize = 0;
        while i < 5
            invariant
                0 <= i <= 5,
                forall|k: int| 0 <= k < i ==> self.positions@[k] == other.positions@[k],
            decreases 5 - i,
        {
            if self.positions[i] != other.positions[i] {
                return false;
            }
            i = i + 1;
        }
        proof {
            assert(self.positions@ =~= other.positions@);
        }
        true
    }
}

impl vstd::std_specs::cmp::PartialEqSpecImpl for WordEncoding {
    open spec fn obeys_eq_spec() -> bool {
        true
    }

    open spec fn eq_spec(&self, other: &WordEncoding) -> bool {
        self@ == other@
    }
}

/// Relies on `String`'s `FromIterator<char>`: the string holds the characters in order.
#[verifier::external_body]
fn chars_to_string(cs: &[char; 5]) -> (r: String)
    ensures
        r@ == cs@,
{
    String::from_iter(cs)
}

} // verus!
