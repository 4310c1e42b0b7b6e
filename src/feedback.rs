use vstd::prelude::*;
use crate::encoding::{MatchKind, MatchResult};

verus! {

/// Number of distinct feedback patterns for a five-letter word (3 to the 5th).
pub const PATTERN_COUNT: usize = 243;

/// Why a line of typed feedback was refused.
#[derive(Clone, Copy, Debug, PartialEq, Eq, Structural)]
pub enum FeedbackError {
    /// The line does not hold exactly five symbols; `found` is how many it holds.
    WrongLength { found: usize },
    /// The first symbol that is not one of `M`, `P`, `N`.
    InvalidSymbol { symbol: char },
}

/// A feedback symbol: `M` (match), `P` (partial) or `N` (no match).
pub open spec fn is_symbol(c: char) -> bool {
    c == 'M' || c == 'P' || c == 'N'
}

/// The outcome a feedback symbol stands for.
pub open spec fn kind_of_symbol(c: char) -> MatchKind {
    if c == 'M' {
        MatchKind::Match
    } else if c == 'P' {
        MatchKind::Partial
    } else {
        MatchKind::NoMatch
    }
}

/// Base-3 digit of an outcome.
pub open spec fn digit(k: MatchKind) -> nat {
    match k {
        MatchKind::NoMatch => 0,
        MatchKind::Partial => 1,
        MatchKind::Match => 2,
    }
}

/// Base-3 number whose digit `i` (least significant first) is that of `r[i]`.
pub open spec fn pattern_code(r: Seq<MatchKind>) -> nat
    decreases r.len(),
{
    if r.len() == 0 {
        0
    } else {
        digit(r[0]) + 3 * pattern_code(r.drop_first())
    }
}

/// Three to the power `n`.
pub open spec fn pow3(n: nat) -> nat
    decreases n,
{
    if n == 0 {
        1
    } else {
        3 * pow3((n - 1) as nat)
    }
}

proof fn lemma_code_bound(r: Seq<MatchKind>)
    ensures
        pattern_code(r) < pow3(r.len()),
    decreases r.len(),
{
    if r.len() > 0 {
        lemma_code_bound(r.drop_first());
        assert(pow3(r.len()) == 3 * pow3((r.len() - 1) as nat));
    }
}

/// Parses five feedback symbols (`M`, `P`, `N`) into a feedback pattern.
pub fn parse_feedback(feedback: &str) -> (r: Result<MatchResult, FeedbackError>)
    ensures
        r is Ok <==> feedback@.len() == 5 && forall|i: int|
            0 <= i < 5 ==> is_symbol(#[trigger] feedback@[i]),
        r matches Ok(m) ==> m@ == feedback@.map_values(|c: char| kind_of_symbol(c)),
        r matches Err(FeedbackError::WrongLength { found }) ==> found == feedback@.len()
            && found != 5,
        r matches Err(FeedbackError::InvalidSymbol { symbol }) ==> feedback@.len() == 5
            && exists|i: int|
            0 <= i < 5 && feedback@[i] == symbol && !is_symbol(symbol) && forall|k: int|
                0 <= k < i ==> is_symbol(#[trigger] feedback@[k]),
{
    let n = feedback.unicode_len();
    if n != 5 {
        return Err(FeedbackError::WrongLength { found: n });
    }
    let mut result: MatchResult = [MatchKind::NoMatch; 5];
    let mut i: usize = 0;
    while i < 5
        invariant
            0 <= i <= 5,
            feedback@.len() == 5,
            forall|k: int| 0 <= k < i ==> is_symbol(#[trigger] feedback@[k]),
            forall|k: int| 0 <= k < i ==> #[trigger] result@[k] == kind_of_symbol(feedback@[k]),
        decreases 5 - i,
    {
        let c = feedback.get_char(i);
        if c == 'M' {
            result[i] = MatchKind::Match;
        } else if c == 'P' {
            result[i] = MatchKind::Partial;
        } else if c == 'N' {
            result[i] = MatchKind::NoMatch;
        } else {
            return Err(FeedbackError::InvalidSymbol { symbol: c });
        }
        i = i + 1;
    }
    proof {
        assert(result@ =~= feedback@.map_values(|c: char| kind_of_symbol(c)));
    }
    Ok(result)
}

/// Bucket of a feedback pattern among the 243: `Σ digit(r[i]) · 3^i`.
pub fn pattern_index(r: &MatchResult) -> (idx: usize)
    ensures
        idx == pattern_code(r@),
        idx < PATTERN_COUNT,
{
    let mut idx: usize = 0;
    let mut i: usize = 5;
    proof {
        assert(r@.subrange(5, 5).len() == 0);
    }
    while i > 0
        invariant
            0 <= i <= 5,
            r@.len() == 5,
            idx == pattern_code(r@.subrange(i as int, 5)),
        decreases i,
    {
        i = i - 1;
        let d: usize = match r[i] {
            MatchKind::NoMatch => 0,
            MatchKind::Partial => 1,
            MatchKind::Match => 2,
        };
        proof {
            assert(r@.subrange(i as int, 5).drop_first() =~= r@.subrange(i as int + 1, 5));
            lemma_code_bound(r@.subrange(i as int + 1, 5));
            reveal_with_fuel(pow3, 6);
            assert(pow3(4) == 81);
            assert(pow3((5 - i - 1) as nat) <= 81) by {
                lemma_pow3_grows((5 - i - 1) as nat, 4);
            }
        }
        idx = d + 3 * idx;
    }
    proof {
        assert(r@.subrange(0, 5) =~= r@);
        lemma_code_bound(r@);
        reveal_with_fuel(pow3, 6);
        assert(pow3(5) == 243);
    }
    idx
}

/// Whether two feedback patterns agree at every position.
pub fn same_pattern(a: &MatchResult, b: &MatchResult) -> (r: bool)
    ensures
        r == (a@ == b@),
{
    let mut i: usize = 0;
    while i < 5
        invariant
            0 <= i <= 5,
            a@.len() == 5,
            b@.len() == 5,
            forall|k: int| 0 <= k < i ==> a@[k] == b@[k],
        decreases 5 - i,
    {
        if a[i] != b[i] {
            return false;
        }
        i = i + 1;
    }
    proof {
        assert(a@ =~= b@);
    }
    true
}

proof fn lemma_pow3_grows(m: nat, n: nat)
    requires
        m <= n,
    ensures
        pow3(m) <= pow3(n),
    decreases n,
{
    if m < n {
        lemma_pow3_grows(m, (n - 1) as nat);
    }
}

} // verus!
